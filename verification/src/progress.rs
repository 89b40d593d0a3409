//! A guard against parsing that does not move on.
use crate::parser::Parser;
use crate::text::TextSize;
use vstd::prelude::*;

verus! {

/// Captures the progress of the parser and allows to test if the parsing is still making progress.
#[derive(Debug, Eq, Ord, PartialOrd, PartialEq, Hash)]
pub struct ParserProgress(Option<TextSize>);

impl View for ParserProgress {
    type V = Option<TextSize>;

    closed spec fn view(&self) -> Option<TextSize> {
        self.0
    }
}

impl Default for ParserProgress {
    fn default() -> (progress: ParserProgress)
        ensures
            progress@ is None,
    {
        ParserProgress(None)
    }
}

impl ParserProgress {
    /// Whether `position` lies behind the one that was captured, if one was.
    pub open spec fn is_passed_at(self, position: TextSize) -> bool {
        self@ matches Some(captured) ==> captured.raw < position.raw
    }

    /// Returns true if the current parser position is passed this position.
    pub fn has_progressed(&self, p: &Parser<'_>) -> (progressed: bool)
        requires
            p@.inv(),
        ensures
            progressed == self.is_passed_at(p@.tokens.position()),
    {
        match self.0 {
            None => true,
            Some(pos) => pos.raw < p.position().raw,
        }
    }

    /// Captures the position of a parser that is still making progress.
    pub fn assert_progressing(&mut self, p: &Parser<'_>)
        requires
            p@.inv(),
            old(self).is_passed_at(p@.tokens.position()),
        ensures
            final(self)@ == Some(p@.tokens.position()),
    {
        self.0 = Some(p.position());
    }
}

/// A position is passed exactly if none was captured, or if it lies behind the one that was.
pub proof fn law_only_later_positions_are_passed(progress: ParserProgress, position: TextSize)
    ensures
        progress@ is None ==> progress.is_passed_at(position),
        progress@ matches Some(captured) ==> (progress.is_passed_at(position) <==> position.raw
            > captured.raw),
{
}

} // verus!
