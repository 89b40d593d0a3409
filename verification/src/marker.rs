//! Handles on the nodes that a parser has started or completed.
use crate::event::Event;
use crate::parser::{Parser, ParserView};
use crate::syntax::JsSyntaxKind;
use crate::text::{text_in, valid_range, TextRange, TextSize};
use drop_bomb::DebugDropBomb;
use vstd::prelude::*;

verus! {

/// `drop_bomb::DebugDropBomb`: a value that, in a build with debug assertions, panics when it is
/// dropped before it was defused.
#[verifier::external_type_specification]
#[verifier::external_body]
pub struct ExDebugDropBomb(drop_bomb::DebugDropBomb);

/// `drop_bomb::DebugDropBomb::new`, which takes the message to panic with. Nothing is claimed of
/// the bomb: whether it is armed depends on the build, and what it does happens when it is
/// dropped, which no contract sees.
#[verifier::external_body]
fn arm_bomb(message: &'static str) -> (bomb: DebugDropBomb) {
    DebugDropBomb::new(message)
}

/// `drop_bomb::DebugDropBomb::defuse`, after which the bomb can be dropped without a panic.
/// Nothing is claimed of the bomb: what it does not do happens when it is dropped, which no
/// contract sees.
pub assume_specification[ DebugDropBomb::defuse ](bomb: &mut DebugDropBomb)
;

/// The model of a [`Marker`].
pub struct MarkerView {
    pub pos: u32,
    pub start: TextSize,
    pub old_start: u32,
    pub child_idx: Option<usize>,
}

impl MarkerView {
    /// The marker of a node that starts at the event `pos` and the byte `start`.
    pub open spec fn fresh(pos: u32, start: TextSize) -> MarkerView {
        MarkerView { pos, start, old_start: pos, child_idx: None }
    }

    /// Whether the marker refers to an event that starts a node.
    pub open spec fn can_complete(self, p: ParserView) -> bool {
        &&& self.pos < p.events.len()
        &&& p.events[self.pos as int] is Start
    }

    /// Where the node ends if it is completed: where the last token does, but not before the
    /// node starts.
    pub open spec fn end(self, p: ParserView) -> TextSize {
        match p.last_range() {
            Some(range) => range.end.later(self.start),
            None => self.start,
        }
    }

    /// The parser with the node completed.
    pub open spec fn completed(self, p: ParserView, kind: JsSyntaxKind, end: TextSize) -> ParserView {
        ParserView {
            events: p.events.update(
                self.pos as int,
                p.events[self.pos as int].with_kind(kind),
            ).push(Event::Finish { end }),
            ..p
        }
    }

    /// The handle on the node once it is completed in `p`.
    pub open spec fn completed_marker(
        self,
        p: ParserView,
        kind: JsSyntaxKind,
    ) -> CompletedMarkerView {
        CompletedMarkerView {
            start_pos: self.pos,
            old_start: earlier(self.pos, self.old_start),
            finish_pos: p.events.len() as u32,
            kind,
        }
    }

    /// The events without the start of the node, if no event came behind it.
    pub open spec fn without_start(self, events: Seq<Event>) -> Seq<Event> {
        if self.pos == events.len() - 1 {
            events.drop_last()
        } else {
            events
        }
    }

    /// Whether the node can be abandoned: if it is the last event, that event is still an
    /// unattached tombstone, and the node that it was to become the parent of still starts
    /// where it did.
    pub open spec fn can_abandon(self, p: ParserView) -> bool {
        let events = self.without_start(p.events);
        &&& p.events.len() > 0
        &&& self.pos == p.events.len() - 1 ==> {
            &&& p.events.last() matches Event::Start { kind, forward_parent, .. }
            &&& kind is TOMBSTONE
            &&& forward_parent is None
        }
        &&& self.child_idx matches Some(child) ==> child < events.len() && events[child as int] is Start
    }

    /// The parser with the node abandoned.
    pub open spec fn abandoned(self, p: ParserView) -> ParserView {
        let events = self.without_start(p.events);
        ParserView {
            events: match self.child_idx {
                Some(child) => events.update(
                    child as int,
                    events[child as int].with_forward_parent(None),
                ),
                None => events,
            },
            ..p
        }
    }
}

/// Returns whether the event at `index` starts a node.
fn is_start(p: &Parser<'_>, index: usize) -> (start: bool)
    ensures
        start == (index < p@.events.len() && p@.events[index as int] is Start),
{
    if index < p.event_count() {
        match p.event(index) {
            Event::Start { .. } => true,
            _ => false,
        }
    } else {
        false
    }
}

/// The smaller of two indices.
pub open spec fn earlier(left: u32, right: u32) -> u32 {
    if left >= right {
        right
    } else {
        left
    }
}

/// A structure signifying the start of parsing of a syntax tree node.
#[must_use]
#[derive(Debug)]
pub struct Marker {
    /// The index in the events list
    pos: u32,
    /// The byte index where the node starts
    start: TextSize,
    old_start: u32,
    child_idx: Option<usize>,
    bomb: DebugDropBomb,
}

impl View for Marker {
    type V = MarkerView;

    closed spec fn view(&self) -> MarkerView {
        MarkerView {
            pos: self.pos,
            start: self.start,
            old_start: self.old_start,
            child_idx: self.child_idx,
        }
    }
}

impl Marker {
    /// Creates the marker of a node that starts at the event `pos` and the byte `start`.
    pub fn new(pos: u32, start: TextSize) -> (marker: Marker)
        ensures
            marker@ == MarkerView::fresh(pos, start),
    {
        Marker {
            pos,
            start,
            old_start: pos,
            child_idx: None,
            bomb: arm_bomb(
                "Marker must either be `completed` or `abandoned` to avoid that children are implicitly attached to a marker's parent.",
            ),
        }
    }

    fn old_start(self, old: u32) -> (marker: Marker)
        ensures
            marker@ == (MarkerView { old_start: earlier(self@.old_start, old), ..self@ }),
    {
        let mut marker = self;
        if marker.old_start >= old {
            marker.old_start = old;
        }
        marker
    }

    /// Returns whether the marker refers to an event that starts a node.
    pub fn can_complete(&self, p: &Parser<'_>) -> (can: bool)
        ensures
            can == self@.can_complete(p@),
    {
        is_start(p, self.pos as usize)
    }

    /// Finishes the syntax tree node and assigns `kind` to it, and creates a `CompletedMarker`
    /// for possible future operation like `.precede()` to deal with forward_parent.
    pub fn complete(self, p: &mut Parser<'_>, kind: JsSyntaxKind) -> (completed: CompletedMarker)
        requires
            old(p)@.inv(),
            old(p)@.has_room(),
            self@.can_complete(old(p)@),
        ensures
            final(p)@ == self@.completed(old(p)@, kind, self@.end(old(p)@)),
            final(p)@.inv(),
            completed@ == self@.completed_marker(old(p)@, kind),
    {
        let last_end = match p.last_range() {
            Some(range) => range.end,
            None => self.start,
        };
        let end_pos = last_end.max(self.start);
        self.complete_at(p, kind, end_pos)
    }

    fn complete_at(self, p: &mut Parser<'_>, kind: JsSyntaxKind, end_pos: TextSize) -> (completed:
        CompletedMarker)
        requires
            old(p)@.inv(),
            old(p)@.has_room(),
            self@.can_complete(old(p)@),
            end_pos.raw >= self@.start.raw,
        ensures
            final(p)@ == self@.completed(old(p)@, kind, end_pos),
            final(p)@.inv(),
            completed@ == self@.completed_marker(old(p)@, kind),
    {
        let mut marker = self;
        marker.bomb.defuse();
        let idx: usize = marker.pos as usize;
        if let Event::Start { start, forward_parent, .. } = p.event(idx) {
            p.set_event(idx, Event::Start { kind, start, forward_parent });
        }
        let finish_pos: u32 = p.event_count() as u32;
        p.push_event(Event::Finish { end: end_pos });
        let new = CompletedMarker::new(marker.pos, finish_pos, kind);
        new.old_start(marker.old_start)
    }

    /// Returns whether the node can be abandoned.
    pub fn can_abandon(&self, p: &Parser<'_>) -> (can: bool)
        ensures
            can == self@.can_abandon(p@),
    {
        let len: usize = p.event_count();
        if len == 0 {
            return false;
        }
        let is_last: bool = self.pos as usize == len - 1;
        if is_last {
            match p.event(len - 1) {
                Event::Start { kind: JsSyntaxKind::TOMBSTONE, forward_parent: None, .. } => {},
                _ => {
                    return false;
                },
            }
        }
        match self.child_idx {
            Some(child) => !(is_last && child == len - 1) && is_start(p, child),
            None => true,
        }
    }

    /// Abandons the syntax tree node. All its children are attached to its parent instead.
    pub fn abandon(self, p: &mut Parser<'_>)
        requires
            old(p)@.inv(),
            self@.can_abandon(old(p)@),
        ensures
            final(p)@ == self@.abandoned(old(p)@),
            final(p)@.inv(),
    {
        let mut marker = self;
        marker.bomb.defuse();
        let idx: usize = marker.pos as usize;
        if idx == p.event_count() - 1 {
            p.pop_event();
        }
        if let Some(idx) = marker.child_idx {
            if let Event::Start { kind, start, .. } = p.event(idx) {
                p.set_event(idx, Event::Start { kind, start, forward_parent: None });
            }
        }
    }

    /// Returns the byte index where the node starts.
    pub fn start(&self) -> (start: TextSize)
        ensures
            start == self@.start,
    {
        self.start
    }
}

/// The model of a [`CompletedMarker`].
pub struct CompletedMarkerView {
    pub start_pos: u32,
    pub old_start: u32,
    pub finish_pos: u32,
    pub kind: JsSyntaxKind,
}

impl CompletedMarkerView {
    /// Whether the marker refers to an event that starts a node.
    pub open spec fn starts_in(self, p: ParserView) -> bool {
        &&& self.start_pos < p.events.len()
        &&& p.events[self.start_pos as int] is Start
    }

    /// The parser with the kind of the node replaced.
    pub open spec fn rekinded(self, p: ParserView, kind: JsSyntaxKind) -> ParserView {
        ParserView {
            events: p.events.update(
                self.start_pos as int,
                p.events[self.start_pos as int].with_kind(kind),
            ),
            ..p
        }
    }

    /// Whether the marker refers to the start and the end of a node, in that order.
    pub open spec fn has_range(self, p: ParserView) -> bool {
        &&& self.old_start < p.events.len()
        &&& p.events[self.old_start as int] matches Event::Start { start, .. }
        &&& self.finish_pos < p.events.len()
        &&& p.events[self.finish_pos as int] matches Event::Finish { end }
        &&& start.raw <= end.raw
    }

    /// The range of the node.
    pub open spec fn range(self, p: ParserView) -> TextRange {
        TextRange {
            start: p.events[self.old_start as int]->start,
            end: p.events[self.finish_pos as int]->end,
        }
    }

    /// The parser with an event that starts a new node.
    pub open spec fn with_parent_started(self, p: ParserView) -> ParserView {
        p.with_event(Event::spec_tombstone(p.tokens.position()))
    }

    /// The parser with a new node started and made the parent of this one.
    pub open spec fn preceded(self, p: ParserView) -> ParserView {
        let started = self.with_parent_started(p);
        ParserView {
            events: started.events.update(
                self.start_pos as int,
                started.events[self.start_pos as int].with_forward_parent(
                    Some((p.events.len() - self.start_pos) as u32),
                ),
            ),
            ..started
        }
    }

    /// Whether a node can be started before this one: the marker refers to where this node
    /// starts, and to where the first of those that it is the parent of does.
    pub open spec fn can_precede(self, p: ParserView) -> bool {
        let started = self.with_parent_started(p);
        &&& self.starts_in(started)
        &&& self.old_start <= self.start_pos
        &&& started.events[self.old_start as int] is Start
    }

    /// The marker of the new node that is the parent of this one and starts where this one does.
    pub open spec fn parent_marker(self, p: ParserView) -> MarkerView {
        MarkerView {
            pos: p.events.len() as u32,
            start: self.with_parent_started(p).events[self.old_start as int]->start,
            old_start: earlier(p.events.len() as u32, self.old_start),
            child_idx: Some(self.start_pos as usize),
        }
    }

    /// Whether the completion can be undone: the marker refers to the start and the end of a
    /// node that has no forward parent.
    pub open spec fn can_undo(self, p: ParserView) -> bool {
        &&& self.start_pos < p.events.len()
        &&& p.events[self.start_pos as int] matches Event::Start { forward_parent, .. }
        &&& forward_parent is None
        &&& self.finish_pos < p.events.len()
        &&& p.events[self.finish_pos as int] is Finish
    }

    /// The parser with the node open again, and with what finished it left as a tombstone.
    pub open spec fn undone(self, p: ParserView) -> ParserView {
        let start = p.events[self.start_pos as int]->start;
        ParserView {
            events: p.events.update(self.start_pos as int, Event::spec_tombstone(start)).update(
                self.finish_pos as int,
                Event::spec_tombstone(start),
            ),
            ..p
        }
    }
}

/// A structure signifying a completed node.
#[derive(Debug, Clone, PartialEq, Eq, Hash)]
pub struct CompletedMarker {
    start_pos: u32,
    // For completed markers which have been preceded
    old_start: u32,
    finish_pos: u32,
    kind: JsSyntaxKind,
}

impl View for CompletedMarker {
    type V = CompletedMarkerView;

    closed spec fn view(&self) -> CompletedMarkerView {
        CompletedMarkerView {
            start_pos: self.start_pos,
            old_start: self.old_start,
            finish_pos: self.finish_pos,
            kind: self.kind,
        }
    }
}

impl CompletedMarker {
    /// Creates the handle on a node that starts and finishes at the given events.
    pub fn new(start_pos: u32, finish_pos: u32, kind: JsSyntaxKind) -> (marker: CompletedMarker)
        ensures
            marker@ == (CompletedMarkerView { start_pos, old_start: start_pos, finish_pos, kind }),
    {
        CompletedMarker { start_pos, old_start: start_pos, finish_pos, kind }
    }

    pub(crate) fn old_start(self, old: u32) -> (marker: CompletedMarker)
        ensures
            marker@ == (CompletedMarkerView { old_start: earlier(self@.old_start, old), ..self@ }),
    {
        let mut marker = self;
        // For multiple precedes we should not update the old start
        if marker.old_start >= old {
            marker.old_start = old;
        }
        marker
    }

    /// Returns whether the marker refers to an event that starts a node.
    pub fn starts_in(&self, p: &Parser<'_>) -> (starts: bool)
        ensures
            starts == self@.starts_in(p@),
    {
        is_start(p, self.start_pos as usize)
    }

    /// Changes the kind of node this marker represents.
    pub fn change_kind(&mut self, p: &mut Parser<'_>, new_kind: JsSyntaxKind)
        requires
            old(p)@.inv(),
            old(self)@.starts_in(old(p)@),
        ensures
            final(self)@ == (CompletedMarkerView { kind: new_kind, ..old(self)@ }),
            final(p)@ == old(self)@.rekinded(old(p)@, new_kind),
            final(p)@.inv(),
    {
        self.kind = new_kind;
        let idx: usize = self.start_pos as usize;
        if let Event::Start { start, forward_parent, .. } = p.event(idx) {
            p.set_event(idx, Event::Start { kind: new_kind, start, forward_parent });
        }
    }

    /// Changes the kind of the node to that of the unknown node that best matches it.
    pub fn change_to_unknown(&mut self, p: &mut Parser<'_>)
        requires
            old(p)@.inv(),
            old(self)@.starts_in(old(p)@),
        ensures
            final(self)@ == (CompletedMarkerView {
                kind: old(self)@.kind.spec_to_unknown(),
                ..old(self)@
            }),
            final(p)@ == old(self)@.rekinded(old(p)@, old(self)@.kind.spec_to_unknown()),
            final(p)@.inv(),
    {
        let unknown = self.kind().to_unknown();
        self.change_kind(p, unknown);
    }

    /// Returns whether the marker refers to the start and the end of a node, in that order.
    pub fn has_range(&self, p: &Parser<'_>) -> (has: bool)
        ensures
            has == self@.has_range(p@),
    {
        let old_start: usize = self.old_start as usize;
        let finish_pos: usize = self.finish_pos as usize;
        if old_start < p.event_count() && finish_pos < p.event_count() {
            match (p.event(old_start), p.event(finish_pos)) {
                (Event::Start { start, .. }, Event::Finish { end }) => start.raw <= end.raw,
                _ => false,
            }
        } else {
            false
        }
    }

    /// Gets the range of the marker.
    pub fn range(&self, p: &Parser<'_>) -> (range: TextRange)
        requires
            self@.has_range(p@),
        ensures
            range == self@.range(p@),
    {
        match (p.event(self.old_start as usize), p.event(self.finish_pos as usize)) {
            (Event::Start { start, .. }, Event::Finish { end }) => TextRange::new(start, end),
            _ => vstd::pervasive::unreached(),
        }
    }

    /// Gets the underlying text of a marker.
    pub fn text<'a>(&self, p: &'a Parser<'_>) -> (text: &'a str)
        requires
            self@.has_range(p@),
            valid_range(p@.tokens.source, self@.range(p@)),
        ensures
            text@ == text_in(p@.tokens.source, self@.range(p@)),
    {
        p.source(self.range(p))
    }

    /// Returns whether a node can be started before this one.
    pub fn can_precede(&self, p: &Parser<'_>) -> (can: bool)
        ensures
            can == self@.can_precede(p@),
    {
        let behind: usize = p.event_count();
        let start_pos: usize = self.start_pos as usize;
        let old_start: usize = self.old_start as usize;
        (start_pos == behind || is_start(p, start_pos)) && old_start <= start_pos && (old_start
            == behind || is_start(p, old_start))
    }

    /// This method allows to create a new node which starts *before* the current one. That is,
    /// parser could start node `A`, then complete it, and then after parsing the whole `A`,
    /// decide that it should have started some node `B` before starting `A`. `precede` allows to
    /// do exactly that. See also docs about `forward_parent` in `Event::Start`.
    ///
    /// Given completed events `[START, FINISH]` and its corresponding `CompletedMarker(pos: 0, _)`.
    /// Append a new `START` events as `[START, FINISH, NEWSTART]`, then mark `NEWSTART` as
    /// `START`'s parent with saving its relative distance to `NEWSTART` into forward_parent(=2 in
    /// this case);
    pub fn precede(self, p: &mut Parser<'_>) -> (parent: Marker)
        requires
            old(p)@.inv(),
            old(p)@.has_room(),
            self@.can_precede(old(p)@),
        ensures
            final(p)@ == self@.preceded(old(p)@),
            final(p)@.inv(),
            parent@ == self@.parent_marker(old(p)@),
    {
        let mut new_pos = p.start();
        let idx: usize = self.start_pos as usize;
        if let Event::Start { kind, start, .. } = p.event(idx) {
            let forward_parent = Some(new_pos.pos - self.start_pos);
            p.set_event(idx, Event::Start { kind, start, forward_parent });
        }
        if let Event::Start { start, .. } = p.event(self.old_start as usize) {
            new_pos.start = start;
        }
        new_pos.child_idx = Some(self.start_pos as usize);
        new_pos.old_start(self.old_start)
    }

    /// Returns whether the completion can be undone.
    pub fn can_undo(&self, p: &Parser<'_>) -> (can: bool)
        ensures
            can == self@.can_undo(p@),
    {
        let start_pos: usize = self.start_pos as usize;
        let finish_pos: usize = self.finish_pos as usize;
        if start_pos < p.event_count() && finish_pos < p.event_count() {
            match (p.event(start_pos), p.event(finish_pos)) {
                (Event::Start { forward_parent: None, .. }, Event::Finish { .. }) => true,
                _ => false,
            }
        } else {
            false
        }
    }

    /// Undoes this completion and turns into a `Marker`.
    pub fn undo_completion(self, p: &mut Parser<'_>) -> (marker: Marker)
        requires
            old(p)@.inv(),
            self@.can_undo(old(p)@),
        ensures
            final(p)@ == self@.undone(old(p)@),
            final(p)@.inv(),
            marker@ == MarkerView::fresh(
                self@.start_pos,
                old(p)@.events[self@.start_pos as int]->start,
            ),
    {
        let start_idx: usize = self.start_pos as usize;
        let finish_idx: usize = self.finish_pos as usize;
        match p.event(start_idx) {
            Event::Start { start, .. } => {
                p.set_event(start_idx, Event::tombstone(start));
                p.set_event(finish_idx, Event::tombstone(start));
                Marker::new(self.start_pos, start)
            },
            _ => vstd::pervasive::unreached(),
        }
    }

    /// Returns the kind of the node.
    pub fn kind(&self) -> (kind: JsSyntaxKind)
        ensures
            kind == self@.kind,
    {
        self.kind
    }
}

} // verus!
