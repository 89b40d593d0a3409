//! The events that a parser yields.
use crate::syntax::JsSyntaxKind;
use crate::text::{TextRange, TextSize};
use vstd::prelude::*;

verus! {

/// A step in the construction of a syntax tree.
#[derive(Clone, Copy, Debug, PartialEq, Eq)]
pub enum Event {
    /// A node starts.
    Start {
        kind: JsSyntaxKind,
        /// The byte that the parser was at when the node was started. A node that was started
        /// before another one that was there already starts where that one does.
        start: TextSize,
        /// The distance to the event that starts the parent of this node, where that event
        /// stands behind this one.
        forward_parent: Option<u32>,
    },
    /// The node that started last and has not finished yet finishes.
    Finish {
        /// The byte at which the node ends.
        end: TextSize,
    },
    /// A token.
    Token { kind: JsSyntaxKind, range: TextRange },
}

impl Event {
    /// The start of a node whose kind is not known yet.
    pub open spec fn spec_tombstone(start: TextSize) -> Event {
        Event::Start { kind: JsSyntaxKind::TOMBSTONE, start, forward_parent: None }
    }

    /// Returns the start of a node whose kind is not known yet.
    pub fn tombstone(start: TextSize) -> (event: Event)
        ensures
            event == Event::spec_tombstone(start),
    {
        Event::Start { kind: JsSyntaxKind::TOMBSTONE, start, forward_parent: None }
    }

    /// The start of a node with its kind replaced.
    pub open spec fn with_kind(self, kind: JsSyntaxKind) -> Event {
        Event::Start { kind, start: self->start, forward_parent: self->forward_parent }
    }

    /// The start of a node with the distance to its parent replaced.
    pub open spec fn with_forward_parent(self, forward_parent: Option<u32>) -> Event {
        Event::Start { kind: self->Start_kind, start: self->start, forward_parent }
    }
}

} // verus!
