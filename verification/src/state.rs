//! What the parser is told about a file, and what the grammar keeps while it parses.
use vstd::prelude::*;

verus! {

/// How a file is loaded.
#[derive(Clone, Copy, Debug, PartialEq, Eq, Structural, Hash)]
pub enum ModuleKind {
    Script,
    Module,
}

impl ModuleKind {
    pub fn is_module(&self) -> (module: bool)
        ensures
            module == (*self is Module),
    {
        match self {
            ModuleKind::Script => false,
            ModuleKind::Module => true,
        }
    }
}

/// What kind of source text a file holds.
#[derive(Clone, Copy, Debug, PartialEq, Eq, Structural, Hash)]
pub struct SourceType {
    pub module_kind: ModuleKind,
}

impl Default for SourceType {
    fn default() -> (source_type: SourceType)
        ensures
            source_type.module_kind is Module,
    {
        SourceType { module_kind: ModuleKind::Module }
    }
}

/// The context that the rules of the grammar keep while they parse.
#[derive(Clone, Copy, Debug, PartialEq, Eq, Structural)]
pub struct ParserState {
    /// Whether the code is in strict mode.
    pub strict: bool,
}

/// A [`ParserState`] at one point in time.
#[derive(Clone, Copy, Debug, PartialEq, Eq, Structural)]
pub struct ParserStateCheckpoint {
    pub state: ParserState,
}

impl ParserState {
    /// The state at the start of a file: the code of a module is strict.
    pub open spec fn initial(source_type: SourceType) -> ParserState {
        ParserState { strict: source_type.module_kind is Module }
    }

    /// Creates the state at the start of a file.
    pub fn new(source_type: &SourceType) -> (state: ParserState)
        ensures
            state == ParserState::initial(*source_type),
    {
        ParserState { strict: source_type.module_kind.is_module() }
    }

    /// Records the state.
    pub fn checkpoint(&self) -> (checkpoint: ParserStateCheckpoint)
        ensures
            checkpoint.state == *self,
    {
        ParserStateCheckpoint { state: *self }
    }

    /// Returns to a recorded state.
    pub fn restore(&mut self, checkpoint: ParserStateCheckpoint)
        ensures
            *final(self) == checkpoint.state,
    {
        *self = checkpoint.state;
    }
}

/// The code of a module is strict from the start, and only that.
pub proof fn law_modules_are_strict(source_type: SourceType)
    ensures
        ParserState::initial(source_type).strict <==> source_type.module_kind == ModuleKind::Module,
{
}

} // verus!
