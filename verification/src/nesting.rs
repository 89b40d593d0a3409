//! How the nodes of a parser nest.
use crate::diagnostic::DiagnosticView;
use crate::event::Event;
use crate::laws::{keeps_tokens, law_keeping_is_transitive, same_tokens};
use crate::marker::{CompletedMarkerView, MarkerView};
use crate::parser::ParserView;
use crate::syntax::JsSyntaxKind;
use crate::token_source::{LexContextView, ReLexContextView};
use vstd::prelude::*;

verus! {

// ---------------------------------------------------------------------------------------------
// As many nodes finish as start.
// ---------------------------------------------------------------------------------------------
/// What an event adds to the number of nodes that have started and not finished. A tombstone is
/// no node yet.
pub open spec fn weight(event: Event) -> int {
    match event {
        Event::Start { kind, .. } => if kind is TOMBSTONE {
            0
        } else {
            1
        },
        Event::Finish { .. } => -1,
        Event::Token { .. } => 0,
    }
}

/// The number of nodes among `events` that have started and not finished.
pub open spec fn balance(events: Seq<Event>) -> int
    decreases events.len(),
{
    if events.len() == 0 {
        0
    } else {
        balance(events.drop_last()) + weight(events.last())
    }
}

/// Replacing an event changes the balance by the difference of the weights.
proof fn lemma_balance_update(events: Seq<Event>, i: int, event: Event)
    requires
        0 <= i < events.len(),
    ensures
        balance(events.update(i, event)) == balance(events) - weight(events[i]) + weight(event),
    decreases events.len(),
{
    let updated = events.update(i, event);
    if i == events.len() - 1 {
        assert(updated.drop_last() =~= events.drop_last());
    } else {
        assert(updated.drop_last() =~= events.drop_last().update(i, event));
        lemma_balance_update(events.drop_last(), i, event);
    }
}

/// Adding an event changes the balance by its weight.
proof fn lemma_balance_push(events: Seq<Event>, event: Event)
    ensures
        balance(events.push(event)) == balance(events) + weight(event),
{
    assert(events.push(event).drop_last() =~= events);
}

/// Every call on a parser or on a marker keeps the balance: a node that is completed starts and
/// finishes, and one whose completion is undone does neither.
pub proof fn law_balance_is_kept(
    p: ParserView,
    marker: MarkerView,
    completed: CompletedMarkerView,
    kind: JsSyntaxKind,
    context: LexContextView,
)
    requires
        !(kind is TOMBSTONE),
    ensures
        balance(p.with_event(Event::spec_tombstone(p.tokens.position())).events) == balance(
            p.events,
        ),
        balance(p.bumped(kind, context).events) == balance(p.events),
        marker.can_complete(p) && weight(p.events[marker.pos as int]) == 0 ==> balance(
            marker.completed(p, kind, marker.end(p)).events,
        ) == balance(p.events),
        marker.can_abandon(p) ==> balance(marker.abandoned(p).events) == balance(p.events),
        completed.starts_in(p) ==> balance(completed.preceded(p).events) == balance(p.events),
        completed.starts_in(p) && weight(p.events[completed.start_pos as int]) == 1 ==> balance(
            completed.rekinded(p, kind).events,
        ) == balance(p.events),
        completed.can_undo(p) && weight(p.events[completed.start_pos as int]) == 1 ==> balance(
            completed.undone(p).events,
        ) == balance(p.events),
{
    let start = Event::spec_tombstone(p.tokens.position());
    lemma_balance_push(p.events, start);
    lemma_balance_push(
        p.events,
        Event::Token {
            kind: if p.bumps_escaped_keyword(kind) {
                JsSyntaxKind::ERROR_TOKEN
            } else {
                kind
            },
            range: p.cur_range(),
        },
    );
    if marker.can_complete(p) {
        let started = p.events[marker.pos as int].with_kind(kind);
        lemma_balance_update(p.events, marker.pos as int, started);
        lemma_balance_push(
            p.events.update(marker.pos as int, started),
            Event::Finish { end: marker.end(p) },
        );
    }
    if marker.can_abandon(p) {
        let events = marker.without_start(p.events);
        if let Some(child) = marker.child_idx {
            lemma_balance_update(
                events,
                child as int,
                events[child as int].with_forward_parent(None),
            );
        }
    }
    if completed.starts_in(p) {
        let at = completed.start_pos as int;
        lemma_balance_update(
            p.events.push(start),
            at,
            p.events.push(start)[at].with_forward_parent(
                Some((p.events.len() - completed.start_pos) as u32),
            ),
        );
        lemma_balance_update(p.events, at, p.events[at].with_kind(kind));
        if completed.can_undo(p) {
            let tombstone = Event::spec_tombstone(p.events[at]->start);
            lemma_balance_update(p.events, at, tombstone);
            lemma_balance_update(
                p.events.update(at, tombstone),
                completed.finish_pos as int,
                tombstone,
            );
        }
    }
}

// ---------------------------------------------------------------------------------------------
// What lies between the start and the end of a node.
// ---------------------------------------------------------------------------------------------
/// Whether all nodes among `events` finish that start there, none before it starts.
pub open spec fn is_balanced(events: Seq<Event>) -> bool {
    &&& balance(events) == 0
    &&& forall|n: int| 0 <= n <= events.len() ==> balance(#[trigger] events.take(n)) >= 0
}

/// The events behind the one at `pos`.
pub open spec fn events_behind(events: Seq<Event>, pos: int) -> Seq<Event> {
    events.subrange(pos + 1, events.len() as int)
}

/// Whether a node starts at the event `start` and finishes at the event `finish`, and what lies
/// between the two is balanced.
pub open spec fn is_whole_node(events: Seq<Event>, start: int, finish: int) -> bool {
    &&& 0 <= start < finish < events.len()
    &&& weight(events[start]) == 1
    &&& events[finish] is Finish
    &&& is_balanced(events.subrange(start + 1, finish))
}

/// The balance of events one behind the other is that of the first and that of the second.
proof fn lemma_balance_concat(left: Seq<Event>, right: Seq<Event>)
    ensures
        balance(left + right) == balance(left) + balance(right),
    decreases right.len(),
{
    if right.len() == 0 {
        assert(left + right =~= left);
    } else {
        assert((left + right).drop_last() =~= left + right.drop_last());
        lemma_balance_concat(left, right.drop_last());
    }
}

/// An event that starts or finishes no node can be added.
proof fn lemma_balanced_push(events: Seq<Event>, event: Event)
    requires
        is_balanced(events),
        weight(event) == 0,
    ensures
        is_balanced(events.push(event)),
{
    let after = events.push(event);
    lemma_balance_push(events, event);
    assert forall|n: int| 0 <= n <= after.len() implies balance(#[trigger] after.take(n)) >= 0 by {
        if n <= events.len() {
            assert(after.take(n) =~= events.take(n));
        } else {
            assert(after.take(n) =~= after);
        }
    }
}

/// An event that starts or finishes no node can be taken off.
proof fn lemma_balanced_pop(events: Seq<Event>)
    requires
        is_balanced(events),
        events.len() > 0,
        weight(events.last()) == 0,
    ensures
        is_balanced(events.drop_last()),
{
    let after = events.drop_last();
    assert forall|n: int| 0 <= n <= after.len() implies balance(#[trigger] after.take(n)) >= 0 by {
        assert(after.take(n) =~= events.take(n));
    }
}

/// What replacing an event does to the balance of the first `n` events.
proof fn lemma_balance_take_update(events: Seq<Event>, i: int, event: Event, n: int)
    requires
        0 <= i < events.len(),
        0 <= n <= events.len(),
    ensures
        balance(events.update(i, event).take(n)) == balance(events.take(n)) + if i < n {
            weight(event) - weight(events[i])
        } else {
            0
        },
{
    if i < n {
        assert(events.update(i, event).take(n) =~= events.take(n).update(i, event));
        lemma_balance_update(events.take(n), i, event);
    } else {
        assert(events.update(i, event).take(n) =~= events.take(n));
    }
}

/// An event can be replaced by one of the same weight.
proof fn lemma_balanced_update(events: Seq<Event>, i: int, event: Event)
    requires
        is_balanced(events),
        0 <= i < events.len(),
        weight(event) == weight(events[i]),
    ensures
        is_balanced(events.update(i, event)),
{
    let after = events.update(i, event);
    lemma_balance_update(events, i, event);
    assert forall|n: int| 0 <= n <= after.len() implies balance(#[trigger] after.take(n)) >= 0 by {
        lemma_balance_take_update(events, i, event, n);
    }
}

/// A stretch of events stays balanced where an event is replaced by one of the same weight.
proof fn lemma_stretch_update(events: Seq<Event>, from: int, to: int, i: int, event: Event)
    requires
        0 <= from <= to <= events.len(),
        0 <= i < events.len(),
        is_balanced(events.subrange(from, to)),
        weight(event) == weight(events[i]),
    ensures
        is_balanced(events.update(i, event).subrange(from, to)),
{
    let stretch = events.subrange(from, to);
    let after = events.update(i, event).subrange(from, to);
    if from <= i < to {
        assert(after =~= stretch.update(i - from, event));
        lemma_balanced_update(stretch, i - from, event);
    } else {
        assert(after =~= stretch);
    }
}

/// A tombstone can become a node that finishes at the end.
proof fn lemma_balanced_complete(events: Seq<Event>, i: int, start: Event, finish: Event)
    requires
        is_balanced(events),
        0 <= i < events.len(),
        weight(events[i]) == 0,
        weight(start) == 1,
        weight(finish) == -1,
    ensures
        is_balanced(events.update(i, start).push(finish)),
{
    let started = events.update(i, start);
    let after = started.push(finish);
    lemma_balance_update(events, i, start);
    lemma_balance_push(started, finish);
    assert forall|n: int| 0 <= n <= after.len() implies balance(#[trigger] after.take(n)) >= 0 by {
        if n <= started.len() {
            assert(after.take(n) =~= started.take(n));
            lemma_balance_take_update(events, i, start, n);
        } else {
            assert(after.take(n) =~= after);
        }
    }
}

/// A node with balanced contents can become two tombstones.
proof fn lemma_balanced_undo(events: Seq<Event>, start: int, finish: int, tombstone: Event)
    requires
        is_balanced(events),
        is_whole_node(events, start, finish),
        weight(tombstone) == 0,
    ensures
        is_balanced(events.update(start, tombstone).update(finish, tombstone)),
{
    let reopened = events.update(start, tombstone);
    let after = reopened.update(finish, tombstone);
    lemma_balance_update(events, start, tombstone);
    lemma_balance_update(reopened, finish, tombstone);
    assert forall|n: int| 0 <= n <= after.len() implies balance(#[trigger] after.take(n)) >= 0 by {
        lemma_balance_take_update(events, start, tombstone, n);
        lemma_balance_take_update(reopened, finish, tombstone, n);
        assert(balance(events.take(n)) >= 0);
        if start < n <= finish {
            let contents = events.subrange(start + 1, finish);
            let before = events.take(start);
            assert(events.take(n) =~= before.push(events[start]) + contents.take(n - start - 1));
            lemma_balance_concat(before.push(events[start]), contents.take(n - start - 1));
            lemma_balance_push(before, events[start]);
            assert(balance(contents.take(n - start - 1)) >= 0);
        }
    }
}

/// A call on a parser, or on one of its markers.
pub enum Call {
    Start,
    Bump { kind: JsSyntaxKind, context: LexContextView },
    Report(DiagnosticView),
    ReLex(ReLexContextView),
    Complete { marker: MarkerView, kind: JsSyntaxKind },
    Abandon(MarkerView),
    Precede(CompletedMarkerView),
    ChangeKind { completed: CompletedMarkerView, kind: JsSyntaxKind },
    Undo(CompletedMarkerView),
}

/// The parser after a call.
pub open spec fn called(p: ParserView, call: Call) -> ParserView {
    match call {
        Call::Start => p.with_event(Event::spec_tombstone(p.tokens.position())),
        Call::Bump { kind, context } => p.bumped(kind, context),
        Call::Report(err) => p.reported(err),
        Call::ReLex(reading) => ParserView { tokens: p.tokens.re_lexed(reading), ..p },
        Call::Complete { marker, kind } => marker.completed(p, kind, marker.end(p)),
        Call::Abandon(marker) => marker.abandoned(p),
        Call::Precede(completed) => completed.preceded(p),
        Call::ChangeKind { completed, kind } => completed.rekinded(p, kind),
        Call::Undo(completed) => completed.undone(p),
    }
}

/// Whether a call can be made: a node that is completed is still a tombstone, a node whose kind is
/// changed or whose completion is undone was completed, and no node becomes a tombstone by its
/// kind.
pub open spec fn can_call(p: ParserView, call: Call) -> bool {
    match call {
        Call::Complete { marker, kind } => {
            &&& marker.can_complete(p)
            &&& weight(p.events[marker.pos as int]) == 0
            &&& !(kind is TOMBSTONE)
        },
        Call::Abandon(marker) => marker.can_abandon(p),
        Call::Precede(completed) => completed.can_precede(p),
        Call::ChangeKind { completed, kind } => {
            &&& completed.starts_in(p)
            &&& weight(p.events[completed.start_pos as int]) == 1
            &&& !(kind is TOMBSTONE)
        },
        Call::Undo(completed) => {
            &&& completed.can_undo(p)
            &&& is_whole_node(
                p.events,
                completed.start_pos as int,
                completed.finish_pos as int,
            )
        },
        _ => true,
    }
}

/// Whether a call neither completes nor abandons the node that starts at the event `pos`, nor
/// completes one that starts before it, nor undoes the completion of one around it.
pub open spec fn stays_inside(call: Call, pos: int) -> bool {
    match call {
        Call::Complete { marker, .. } => pos < marker.pos,
        Call::Abandon(marker) => pos != marker.pos,
        Call::Undo(completed) => pos < completed.start_pos || completed.finish_pos < pos,
        _ => true,
    }
}

/// While a node is open, what lies behind its start stays balanced: a node that starts there
/// finishes there. What is consumed is added at the end, no other call adds or takes off a token,
/// and what lies before the start of the node keeps its tokens.
pub proof fn law_open_node_stays_balanced(p: ParserView, call: Call, pos: int)
    requires
        0 <= pos < p.events.len(),
        is_balanced(events_behind(p.events, pos)),
        can_call(p, call),
        stays_inside(call, pos),
    ensures
        ({
            let before = events_behind(p.events, pos);
            let events = called(p, call).events;
            let after = events_behind(events, pos);
            &&& pos < events.len()
            &&& is_balanced(after)
            &&& p.events[pos] is Start ==> events[pos] is Start && events[pos]->start
                == p.events[pos]->start
            &&& same_tokens(p.events.take(pos), events.take(pos))
            &&& keeps_tokens(before, after)
            &&& !(call is Bump) ==> same_tokens(before, after)
            &&& call is Start ==> after == before.push(
                Event::spec_tombstone(p.tokens.position()),
            )
            &&& call matches Call::Bump { kind, .. } ==> after == if p.skipping {
                before
            } else {
                before.push(
                    Event::Token {
                        kind: if p.bumps_escaped_keyword(kind) {
                            JsSyntaxKind::ERROR_TOKEN
                        } else {
                            kind
                        },
                        range: p.cur_range(),
                    },
                )
            }
        }),
{
    let from = pos + 1;
    let len = p.events.len() as int;
    let before = events_behind(p.events, pos);
    let events = called(p, call).events;
    let after = events_behind(events, pos);
    match call {
        Call::Start => {
            let start = Event::spec_tombstone(p.tokens.position());
            assert(after =~= before.push(start));
            lemma_balanced_push(before, start);
        },
        Call::Bump { .. } => {
            if !p.skipping {
                assert(after =~= before.push(events.last()));
                lemma_balanced_push(before, events.last());
            }
        },
        Call::Complete { marker, kind } => {
            let start = p.events[marker.pos as int].with_kind(kind);
            let finish = Event::Finish { end: marker.end(p) };
            let i = marker.pos - from;
            assert(after =~= before.update(i, start).push(finish));
            assert(before[i] == p.events[marker.pos as int]);
            lemma_balanced_complete(before, i, start, finish);
        },
        Call::Abandon(marker) => {
            let kept = marker.without_start(p.events);
            if marker.pos == len - 1 {
                assert(events_behind(kept, pos) =~= before.drop_last());
                lemma_balanced_pop(before);
            }
            if let Some(child) = marker.child_idx {
                let detached = kept[child as int].with_forward_parent(None);
                lemma_stretch_update(kept, from, kept.len() as int, child as int, detached);
            }
        },
        Call::Precede(completed) => {
            let start = Event::spec_tombstone(p.tokens.position());
            let started = p.events.push(start);
            let i = completed.start_pos as int;
            assert(events_behind(started, pos) =~= before.push(start));
            lemma_balanced_push(before, start);
            lemma_stretch_update(
                started,
                from,
                len + 1,
                i,
                started[i].with_forward_parent(Some((len - completed.start_pos) as u32)),
            );
        },
        Call::ChangeKind { completed, kind } => {
            let i = completed.start_pos as int;
            lemma_stretch_update(p.events, from, len, i, p.events[i].with_kind(kind));
        },
        Call::Undo(completed) => {
            let start = completed.start_pos as int;
            let finish = completed.finish_pos as int;
            let tombstone = Event::spec_tombstone(p.events[start]->start);
            if pos < start {
                assert(before.subrange(start - from + 1, finish - from) =~= p.events.subrange(
                    start + 1,
                    finish,
                ));
                assert(after =~= before.update(start - from, tombstone).update(
                    finish - from,
                    tombstone,
                ));
                lemma_balanced_undo(before, start - from, finish - from, tombstone);
            } else {
                assert(after =~= before);
            }
        },
        _ => {},
    }
}

/// The parser after calls one behind the other.
pub open spec fn called_all(p: ParserView, calls: Seq<Call>) -> ParserView
    decreases calls.len(),
{
    if calls.len() == 0 {
        p
    } else {
        called(called_all(p, calls.drop_last()), calls.last())
    }
}

/// Whether calls can be made one behind the other, while the node that starts at the event `pos`
/// is open.
pub open spec fn can_call_all(p: ParserView, calls: Seq<Call>, pos: int) -> bool
    decreases calls.len(),
{
    calls.len() > 0 ==> {
        let before = called_all(p, calls.drop_last());
        &&& can_call_all(p, calls.drop_last(), pos)
        &&& can_call(before, calls.last())
        &&& stays_inside(calls.last(), pos)
    }
}

/// All nodes and tokens consumed between the start of a node and its completion belong to it: once
/// it is completed, they are what lies strictly between its start and its end, and are balanced
/// there. What was consumed before lies before its start.
pub proof fn law_node_holds_what_is_consumed(p: ParserView, calls: Seq<Call>, kind: JsSyntaxKind)
    requires
        p.has_room(),
        !(kind is TOMBSTONE),
        can_call_all(called(p, Call::Start), calls, p.events.len() as int),
        called_all(called(p, Call::Start), calls).has_room(),
    ensures
        ({
            let marker = MarkerView::fresh(p.events.len() as u32, p.tokens.position());
            let consumed = called_all(called(p, Call::Start), calls);
            let completed = marker.completed_marker(consumed, kind);
            let events = marker.completed(consumed, kind, marker.end(consumed)).events;
            let start = completed.start_pos as int;
            let finish = completed.finish_pos as int;
            &&& marker.can_complete(consumed)
            &&& start == p.events.len()
            &&& finish == consumed.events.len()
            &&& events.len() == finish + 1
            &&& events[start] matches Event::Start { kind: given, start: byte, .. } && given == kind
                && byte == p.tokens.position()
            &&& events[finish] == Event::Finish { end: marker.end(consumed) }
            &&& events.subrange(start + 1, finish) == events_behind(consumed.events, start)
            &&& is_whole_node(events, start, finish)
            &&& same_tokens(p.events, events.take(start))
        }),
{
    let pos = p.events.len() as int;
    let started = called(p, Call::Start);
    let consumed = called_all(started, calls);
    let marker = MarkerView::fresh(p.events.len() as u32, p.tokens.position());
    let events = marker.completed(consumed, kind, marker.end(consumed)).events;
    assert(events_behind(started.events, pos) =~= Seq::empty());
    assert(is_balanced(events_behind(started.events, pos)));
    assert(started.events.take(pos) =~= p.events);
    lemma_called_all(started, calls, pos);
    assert(events.subrange(pos + 1, consumed.events.len() as int) =~= events_behind(
        consumed.events,
        pos,
    ));
    assert(events.take(pos) =~= consumed.events.take(pos));
}

/// Calls made while a node is open keep what lies behind its start balanced.
proof fn lemma_called_all(p: ParserView, calls: Seq<Call>, pos: int)
    requires
        0 <= pos < p.events.len(),
        p.events[pos] is Start,
        is_balanced(events_behind(p.events, pos)),
        can_call_all(p, calls, pos),
    ensures
        ({
            let after = called_all(p, calls).events;
            &&& pos < after.len()
            &&& after[pos] is Start
            &&& after[pos]->start == p.events[pos]->start
            &&& is_balanced(events_behind(after, pos))
            &&& same_tokens(p.events.take(pos), after.take(pos))
        }),
    decreases calls.len(),
{
    if calls.len() > 0 {
        let before = called_all(p, calls.drop_last());
        lemma_called_all(p, calls.drop_last(), pos);
        law_open_node_stays_balanced(before, calls.last(), pos);
        let first = p.events.take(pos);
        let second = before.events.take(pos);
        let third = called_all(p, calls).events.take(pos);
        law_keeping_is_transitive(first, second, third);
        law_keeping_is_transitive(third, second, first);
    }
}

/// Whether a call neither completes a node that starts inside the one from the event `start` to
/// the event `finish`, nor undoes the completion of that one or of one that overlaps it in part.
pub open spec fn leaves_whole(call: Call, start: int, finish: int) -> bool {
    match call {
        Call::Complete { marker, .. } => marker.pos < start || finish < marker.pos,
        Call::Undo(completed) => {
            ||| completed.finish_pos < start
            ||| finish < completed.start_pos
            ||| completed.start_pos < start && finish < completed.finish_pos
            ||| start < completed.start_pos && completed.finish_pos < finish
        },
        _ => true,
    }
}

/// A node with balanced contents stays such a node over calls on other nodes, and where it is
/// preceded or its kind is changed.
pub proof fn law_whole_node_stays_whole(p: ParserView, call: Call, start: int, finish: int)
    requires
        is_whole_node(p.events, start, finish),
        can_call(p, call),
        leaves_whole(call, start, finish),
    ensures
        is_whole_node(called(p, call).events, start, finish),
{
    let from = start + 1;
    let len = p.events.len() as int;
    let contents = p.events.subrange(from, finish);
    let events = called(p, call).events;
    let after = events.subrange(from, finish);
    match call {
        Call::Complete { .. } => {
            assert(after =~= contents);
        },
        Call::Abandon(marker) => {
            let kept = marker.without_start(p.events);
            assert(kept.subrange(from, finish) =~= contents);
            if let Some(child) = marker.child_idx {
                let detached = kept[child as int].with_forward_parent(None);
                lemma_stretch_update(kept, from, finish, child as int, detached);
            }
        },
        Call::Precede(completed) => {
            let started = p.events.push(Event::spec_tombstone(p.tokens.position()));
            let i = completed.start_pos as int;
            assert(started.subrange(from, finish) =~= contents);
            lemma_stretch_update(
                started,
                from,
                finish,
                i,
                started[i].with_forward_parent(Some((len - completed.start_pos) as u32)),
            );
        },
        Call::ChangeKind { completed, kind } => {
            let i = completed.start_pos as int;
            lemma_stretch_update(p.events, from, finish, i, p.events[i].with_kind(kind));
        },
        Call::Undo(completed) => {
            let inner = completed.start_pos as int;
            let inner_finish = completed.finish_pos as int;
            if start < inner && inner_finish < finish {
                let tombstone = Event::spec_tombstone(p.events[inner]->start);
                assert(contents.subrange(inner - from + 1, inner_finish - from)
                    =~= p.events.subrange(inner + 1, inner_finish));
                assert(after =~= contents.update(inner - from, tombstone).update(
                    inner_finish - from,
                    tombstone,
                ));
                lemma_balanced_undo(contents, inner - from, inner_finish - from, tombstone);
            } else {
                assert(after =~= contents);
            }
        },
        _ => {
            assert(after =~= contents);
        },
    }
}

} // verus!
