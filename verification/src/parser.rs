//! The parser: a position among the tokens of a source text, and the events it has yielded.
use crate::diagnostic::{views, Diagnostic, DiagnosticView, ParseDiagnostic, Severity};
use crate::event::Event;
use crate::marker::{Marker, MarkerView};
use crate::state::{ParserState, ParserStateCheckpoint, SourceType};
use crate::syntax::{JsSyntaxKind, TokenSet};
use crate::text::{check_range, slice, text_in, valid_range, TextRange, TextSize};
use crate::token_source::{
    LexContext, LexContextView, ReLexContext, TokenSource, TokenSourceCheckpoint,
    TokenSourceCheckpointView, TokenSourceView, Trivia,
};
use vstd::prelude::*;
use vstd::string::*;

verus! {

/// The model of a [`Parser`].
#[verifier::ext_equal]
pub struct ParserView {
    pub file_id: usize,
    pub tokens: TokenSourceView,
    pub events: Seq<Event>,
    pub state: ParserState,
    pub source_type: SourceType,
    pub diagnostics: Seq<DiagnosticView>,
    /// The index of the event of the token that was bumped last.
    pub last_token_event_pos: Option<u32>,
    /// Whether tokens are passed as trivia.
    pub skipping: bool,
}

/// The message about a keyword that is spelled with an escape sequence.
pub open spec fn escaped_keyword_message(keyword: Seq<char>) -> Seq<char> {
    "'"@ + keyword + "' keyword cannot contain escape character."@
}

impl ParserView {
    pub open spec fn inv(self) -> bool {
        &&& self.tokens.inv()
        &&& self.last_token_event_pos matches Some(pos) ==> {
            &&& pos < self.events.len()
            &&& self.events[pos as int] is Token
        }
    }

    /// Whether the index of the next event is a `u32`, as the markers that refer to it need.
    pub open spec fn has_room(self) -> bool {
        self.events.len() <= u32::MAX
    }

    /// The kind of the current token.
    pub open spec fn cur(self) -> JsSyntaxKind {
        self.tokens.token().kind
    }

    /// The range of the current token.
    pub open spec fn cur_range(self) -> TextRange {
        self.tokens.token().range
    }

    /// The text of the current token.
    pub open spec fn cur_text(self) -> Seq<char> {
        text_in(self.tokens.source, self.cur_range())
    }

    /// The kind of the token that was bumped last.
    pub open spec fn last_kind(self) -> Option<JsSyntaxKind> {
        match self.last_token_event_pos {
            Some(pos) => Some(self.events[pos as int]->Token_kind),
            None => None,
        }
    }

    /// The range of the token that was bumped last.
    pub open spec fn last_range(self) -> Option<TextRange> {
        match self.last_token_event_pos {
            Some(pos) => Some(self.events[pos as int]->range),
            None => None,
        }
    }

    /// A syntax error of the parser's file, without a label.
    pub open spec fn syntax_error(self, severity: Severity, message: Seq<char>) -> DiagnosticView {
        DiagnosticView {
            file_id: self.file_id,
            severity,
            code: Some("SyntaxError"@),
            message,
            primary: None,
        }
    }

    /// The parser with `err` reported, unless it repeats the report before it.
    pub open spec fn reported(self, err: DiagnosticView) -> ParserView {
        if self.diagnostics.len() > 0 && err.repeats(self.diagnostics.last()) {
            self
        } else {
            ParserView { diagnostics: self.diagnostics.push(err), ..self }
        }
    }

    /// The parser with one more event.
    pub open spec fn with_event(self, event: Event) -> ParserView {
        ParserView { events: self.events.push(event), ..self }
    }

    /// Whether bumping the current token as `kind` bumps a keyword spelled with an escape
    /// sequence.
    pub open spec fn bumps_escaped_keyword(self, kind: JsSyntaxKind) -> bool {
        kind.spec_is_keyword() && self.tokens.token().unicode_escape
    }

    /// The report about bumping the current token as the keyword `kind`.
    pub open spec fn escaped_keyword(self, kind: JsSyntaxKind) -> DiagnosticView {
        self.syntax_error(
            Severity::Error,
            escaped_keyword_message(kind.fixed_text()->0),
        ).labelled(self.cur_range(), ""@)
    }

    /// The parser with the current token passed: as trivia while it is skipping, else as an
    /// event of the given kind.
    pub open spec fn passed(self, kind: JsSyntaxKind, context: LexContextView) -> ParserView {
        if self.skipping {
            ParserView { tokens: self.tokens.skipped(context), ..self }
        } else {
            ParserView {
                tokens: self.tokens.bumped(context),
                last_token_event_pos: Some(self.events.len() as u32),
                events: self.events.push(Event::Token { kind, range: self.cur_range() }),
                ..self
            }
        }
    }

    /// The parser with the current token bumped as `kind`. A keyword that is spelled with an
    /// escape sequence is reported and becomes an error token.
    pub open spec fn bumped(self, kind: JsSyntaxKind, context: LexContextView) -> ParserView {
        if self.bumps_escaped_keyword(kind) {
            self.reported(self.escaped_keyword(kind)).passed(JsSyntaxKind::ERROR_TOKEN, context)
        } else {
            self.passed(kind, context)
        }
    }

    /// Whether the current token can be bumped.
    pub open spec fn can_bump(self, context: LexContextView) -> bool {
        &&& self.tokens.can_read(context)
        &&& self.skipping || self.has_room()
    }

    /// Whether the current token can be bumped as the only child of a node: the file has not
    /// ended, and there is room for the events.
    pub open spec fn can_wrap_cur(self) -> bool {
        &&& !(self.cur() is EOF)
        &&& self.events.len() + (if self.skipping {
            1int
        } else {
            2int
        }) <= u32::MAX
    }

    /// The parser with the current token bumped as the only child of a node of the given kind.
    pub open spec fn cur_wrapped(self, kind: JsSyntaxKind) -> ParserView {
        let node = MarkerView::fresh(self.events.len() as u32, self.tokens.position());
        let bumped = self.with_event(Event::spec_tombstone(self.tokens.position())).bumped(
            self.cur(),
            LexContextView::Regular,
        );
        node.completed(bumped, kind, node.end(bumped))
    }

    /// What a checkpoint of this parser records.
    pub open spec fn recorded(self) -> CheckpointView {
        CheckpointView {
            event_pos: self.events.len() as int,
            errors_pos: self.diagnostics.len() as int,
            last_token_pos: self.last_token_event_pos,
            state: self.state,
            token_source: self.tokens.recorded(),
        }
    }

    /// Whether the parser has come past what `checkpoint` records.
    pub open spec fn can_rewind(self, checkpoint: CheckpointView) -> bool {
        &&& self.tokens.inv()
        &&& self.tokens.can_rewind(checkpoint.token_source)
        &&& 0 <= checkpoint.event_pos <= self.events.len()
    }

    /// The parser back at `checkpoint`, with the events and the reports added since then
    /// forgotten.
    pub open spec fn rewound(self, checkpoint: CheckpointView) -> ParserView {
        ParserView {
            tokens: self.tokens.rewound(checkpoint.token_source),
            last_token_event_pos: checkpoint.last_token_pos,
            events: self.events.take(checkpoint.event_pos),
            diagnostics: if checkpoint.errors_pos <= self.diagnostics.len() {
                self.diagnostics.take(checkpoint.errors_pos)
            } else {
                self.diagnostics
            },
            state: checkpoint.state,
            ..self
        }
    }

    /// The parser with at most `len` events and no longer skipping.
    pub open spec fn unskipped(self, len: int) -> ParserView {
        ParserView {
            events: if len <= self.events.len() {
                self.events.take(len)
            } else {
                self.events
            },
            skipping: false,
            ..self
        }
    }
}

/// The progress of a parser at one point in time.
#[derive(Debug)]
pub struct Checkpoint {
    /// The number of events at that time.
    event_pos: usize,
    /// The number of diagnostics at that time. The parser only supports files of up to 4 GiB, so
    /// that a `u32` can count one for every byte.
    errors_pos: u32,
    last_token_pos: Option<u32>,
    state: ParserStateCheckpoint,
    token_source: TokenSourceCheckpoint,
}

/// The model of a [`Checkpoint`].
pub struct CheckpointView {
    pub event_pos: int,
    pub errors_pos: int,
    pub last_token_pos: Option<u32>,
    pub state: ParserState,
    pub token_source: TokenSourceCheckpointView,
}

impl View for Checkpoint {
    type V = CheckpointView;

    closed spec fn view(&self) -> CheckpointView {
        CheckpointView {
            event_pos: self.event_pos as int,
            errors_pos: self.errors_pos as int,
            last_token_pos: self.last_token_pos,
            state: self.state.state,
            token_source: self.token_source@,
        }
    }
}

/// What can be reported as a diagnostic of a parser.
pub trait ToDiagnostic: Sized {
    /// The diagnostic at the state of `p`.
    spec fn diagnostic_at(self, p: ParserView) -> DiagnosticView;

    fn to_diagnostic(self, p: &Parser<'_>) -> (diagnostic: Diagnostic)
        requires
            p@.inv(),
        ensures
            diagnostic@ == self.diagnostic_at(p@),
    ;
}

impl ToDiagnostic for Diagnostic {
    open spec fn diagnostic_at(self, p: ParserView) -> DiagnosticView {
        self@
    }

    fn to_diagnostic(self, p: &Parser<'_>) -> (diagnostic: Diagnostic) {
        self
    }
}

/// An extremely fast, error tolerant, completely lossless JavaScript parser.
///
/// The parser yields lower level events instead of nodes.
pub struct Parser<'s> {
    file_id: usize,
    tokens: TokenSource<'s>,
    events: Vec<Event>,
    pub state: ParserState,
    pub source_type: SourceType,
    pub diagnostics: Vec<ParseDiagnostic>,
    // A `u32` is sufficient because the parser only supports files up to `u32` bytes.
    last_token_event_pos: Option<u32>,
    // If the parser should skip tokens as trivia
    skipping: bool,
}

impl<'s> View for Parser<'s> {
    type V = ParserView;

    closed spec fn view(&self) -> ParserView {
        ParserView {
            file_id: self.file_id,
            tokens: self.tokens@,
            events: self.events@,
            state: self.state,
            source_type: self.source_type,
            diagnostics: views(self.diagnostics@),
            last_token_event_pos: self.last_token_event_pos,
            skipping: self.skipping,
        }
    }
}

impl<'s> Parser<'s> {
    /// Creates a new parser that parses the text of `tokens`.
    pub fn new(tokens: TokenSource<'s>, file_id: usize, source_type: SourceType) -> (parser: Parser<
        's,
    >)
        requires
            tokens@.inv(),
        ensures
            parser@.inv(),
            parser@ == (ParserView {
                file_id,
                tokens: tokens@,
                events: Seq::empty(),
                state: ParserState::initial(source_type),
                source_type,
                diagnostics: Seq::empty(),
                last_token_event_pos: None,
                skipping: false,
            }),
    {
        Parser {
            file_id,
            events: Vec::new(),
            state: ParserState::new(&source_type),
            tokens,
            last_token_event_pos: None,
            source_type,
            diagnostics: Vec::new(),
            skipping: false,
        }
    }

    /// Consumes the parser and returns the list of events, the source text's trivia, and the
    /// diagnostics: first those of the parser, then those of the lexer.
    pub fn finish(self) -> (parts: (Vec<Event>, Vec<Trivia>, Vec<ParseDiagnostic>))
        ensures
            parts.0@ == self@.events,
            parts.1@ == self@.tokens.trivia,
            views(parts.2@) == self@.diagnostics + self@.tokens.diagnostics,
    {
        let (trivia, source_diagnostics) = self.tokens.finish();
        let mut source_diagnostics = source_diagnostics;
        let mut diagnostics = self.diagnostics;
        let ghost parsed = diagnostics@;
        let ghost lexed = source_diagnostics@;
        diagnostics.append(&mut source_diagnostics);
        assert(views(diagnostics@) =~= views(parsed) + views(lexed));
        (self.events, trivia, diagnostics)
    }

    /// Gets the current token kind of the parser.
    pub fn cur(&self) -> (kind: JsSyntaxKind)
        requires
            self@.inv(),
        ensures
            kind == self@.cur(),
    {
        self.tokens.current()
    }

    /// Gets the range of the current token.
    pub fn cur_range(&self) -> (range: TextRange)
        requires
            self@.inv(),
        ensures
            range == self@.cur_range(),
            valid_range(self@.tokens.source, range),
    {
        self.tokens.current_range()
    }

    /// Gets the byte at which the current token starts.
    pub fn position(&self) -> (position: TextSize)
        requires
            self@.inv(),
        ensures
            position == self@.tokens.position(),
    {
        self.tokens.position()
    }

    /// Checks if the parser is currently at a specific token.
    pub fn at(&self, kind: JsSyntaxKind) -> (at: bool)
        requires
            self@.inv(),
        ensures
            at == self@.cur().same(kind),
    {
        self.cur() == kind
    }

    /// Looks ahead at a token and gets its kind.
    pub fn nth(&mut self, n: usize) -> (kind: JsSyntaxKind)
        requires
            old(self)@.inv(),
        ensures
            kind == old(self)@.tokens.nth_kind(n as nat),
            final(self)@ == old(self)@,
    {
        self.tokens.nth(n)
    }

    /// Checks if a token lookahead is something.
    pub fn nth_at(&mut self, n: usize, kind: JsSyntaxKind) -> (at: bool)
        requires
            old(self)@.inv(),
        ensures
            at == old(self)@.tokens.nth_kind(n as nat).same(kind),
            final(self)@ == old(self)@,
    {
        self.nth(n) == kind
    }

    /// Returns the kind of the last bumped token.
    pub fn last(&self) -> (kind: Option<JsSyntaxKind>)
        requires
            self@.inv(),
        ensures
            kind == self@.last_kind(),
    {
        match self.last_token_event_pos {
            Some(pos) => match self.events[pos as usize] {
                Event::Token { kind, .. } => Some(kind),
                _ => None,
            },
            None => None,
        }
    }

    /// Returns the range of the last bumped token.
    pub fn last_range(&self) -> (range: Option<TextRange>)
        requires
            self@.inv(),
        ensures
            range == self@.last_range(),
    {
        match self.last_token_event_pos {
            Some(pos) => match self.events[pos as usize] {
                Event::Token { range, .. } => Some(range),
                _ => None,
            },
            None => None,
        }
    }

    /// Consumes the next token if `kind` matches.
    pub fn eat(&mut self, kind: JsSyntaxKind) -> (eaten: bool)
        requires
            old(self)@.inv(),
            old(self)@.cur().same(kind) ==> old(self)@.can_bump(LexContextView::Regular),
        ensures
            eaten == old(self)@.cur().same(kind),
            final(self)@ == if eaten {
                old(self)@.bumped(kind, LexContextView::Regular)
            } else {
                old(self)@
            },
            final(self)@.inv(),
    {
        if !self.at(kind) {
            return false;
        }
        self.do_bump(kind, LexContext::default());
        true
    }

    /// Starts a new node in the syntax tree. All nodes and tokens consumed between the `start`
    /// and the corresponding `Marker::complete` belong to the same node.
    pub fn start(&mut self) -> (marker: Marker)
        requires
            old(self)@.inv(),
            old(self)@.has_room(),
        ensures
            final(self)@ == old(self)@.with_event(
                Event::spec_tombstone(old(self)@.tokens.position()),
            ),
            final(self)@.inv(),
            marker@ == MarkerView::fresh(
                old(self)@.events.len() as u32,
                old(self)@.tokens.position(),
            ),
    {
        let pos = self.events.len() as u32;
        let start = self.tokens.position();
        self.push_event(Event::tombstone(start));
        Marker::new(pos, start)
    }

    /// Tests if there's a line break before the nth token.
    pub fn has_nth_preceding_line_break(&mut self, n: usize) -> (line_break: bool)
        requires
            old(self)@.inv(),
        ensures
            line_break == old(self)@.tokens.nth_line_break(n as nat),
            final(self)@ == old(self)@,
    {
        self.tokens.has_nth_preceding_line_break(n)
    }

    /// Tests if there's a line break before the current token (between the last and current).
    pub fn has_preceding_line_break(&self) -> (line_break: bool)
        requires
            self@.inv(),
        ensures
            line_break == self@.tokens.token().preceding_line_break,
    {
        self.tokens.has_preceding_line_break()
    }

    /// Returns whether one more event has an index that markers can refer to.
    pub fn has_room(&self) -> (room: bool)
        ensures
            room == self@.has_room(),
    {
        self.events.len() as u64 <= u32::MAX as u64
    }

    /// Returns whether the current token can be bumped and the next one read using `context`.
    pub fn can_bump(&self, context: &LexContext) -> (can: bool)
        requires
            self@.inv(),
        ensures
            can == self@.can_bump(context@),
    {
        self.tokens.can_read(context) && (self.skipping || self.has_room())
    }

    /// Consumes the current token, which must be of the given kind.
    pub fn bump(&mut self, kind: JsSyntaxKind)
        requires
            old(self)@.inv(),
            old(self)@.cur().same(kind),
            old(self)@.can_bump(LexContextView::Regular),
        ensures
            final(self)@ == old(self)@.bumped(kind, LexContextView::Regular),
            final(self)@.inv(),
    {
        self.bump_with_context(kind, LexContext::default())
    }

    /// Consumes the current token, which must be of the given kind, and reads the next token
    /// using the specified `context`.
    pub fn bump_with_context(&mut self, kind: JsSyntaxKind, context: LexContext)
        requires
            old(self)@.inv(),
            old(self)@.cur().same(kind),
            old(self)@.can_bump(context@),
        ensures
            final(self)@ == old(self)@.bumped(kind, context@),
            final(self)@.inv(),
    {
        self.do_bump(kind, context);
    }

    /// Consumes any token but casts it as a different kind.
    pub fn bump_remap(&mut self, kind: JsSyntaxKind)
        requires
            old(self)@.inv(),
            old(self)@.can_bump(LexContextView::Regular),
        ensures
            final(self)@ == old(self)@.bumped(kind, LexContextView::Regular),
            final(self)@.inv(),
    {
        self.do_bump(kind, LexContext::default())
    }

    /// Bumps the current token regardless of its kind and advances to the next token. The file
    /// must not have ended.
    pub fn bump_any(&mut self)
        requires
            old(self)@.inv(),
            !(old(self)@.cur() is EOF),
            old(self)@.can_bump(LexContextView::Regular),
        ensures
            final(self)@ == old(self)@.bumped(old(self)@.cur(), LexContextView::Regular),
            final(self)@.inv(),
    {
        let kind = self.nth(0);
        self.do_bump(kind, LexContext::default())
    }

    /// Makes a new error builder with `error` severity.
    #[must_use]
    pub fn err_builder(&self, message: &str) -> (diagnostic: Diagnostic)
        ensures
            diagnostic@ == self@.syntax_error(Severity::Error, message@),
    {
        Diagnostic::error(self.file_id, "SyntaxError", message)
    }

    /// Adds an error. Another error is not reported if it would just be at the same position as
    /// the last one.
    pub fn error<E: ToDiagnostic>(&mut self, err: E)
        requires
            old(self)@.inv(),
        ensures
            final(self)@ == old(self)@.reported(err.diagnostic_at(old(self)@)),
            final(self)@.inv(),
    {
        let err = err.to_diagnostic(self);
        let len: usize = self.diagnostics.len();
        if len > 0 {
            assert(views(self.diagnostics@).last() == self.diagnostics@.last()@);
            if err.is_repetition_of(&self.diagnostics[len - 1]) {
                return;
            }
        }
        let ghost before = self.diagnostics@;
        self.diagnostics.push(err);
        assert(views(self.diagnostics@) =~= views(before).push(err@));
    }

    /// Checks if the parser's current token is contained in a token set.
    pub fn at_ts(&self, kinds: TokenSet) -> (at: bool)
        requires
            self@.inv(),
        ensures
            at == kinds.has_kind(self@.cur()),
    {
        kinds.contains(self.cur())
    }

    fn do_bump(&mut self, kind: JsSyntaxKind, context: LexContext)
        requires
            old(self)@.inv(),
            old(self)@.can_bump(context@),
        ensures
            final(self)@ == old(self)@.bumped(kind, context@),
            final(self)@.inv(),
    {
        let kind = if kind.is_keyword() && self.tokens.has_unicode_escape() {
            let mut message = "'".to_owned();
            if let Some(text) = kind.to_string() {
                message.append(text);
            }
            message.append("' keyword cannot contain escape character.");
            let err = self.err_builder(message.as_str()).primary(self.cur_range(), "");
            self.error(err);
            JsSyntaxKind::ERROR_TOKEN
        } else {
            kind
        };
        if self.skipping {
            self.tokens.skip_as_trivia(context);
        } else {
            let range = self.cur_range();
            self.tokens.bump(context);
            self.push_token(kind, range);
        }
    }

    fn push_token(&mut self, kind: JsSyntaxKind, range: TextRange)
        requires
            old(self)@.inv(),
            old(self)@.has_room(),
        ensures
            final(self)@ == (ParserView {
                last_token_event_pos: Some(old(self)@.events.len() as u32),
                ..old(self)@.with_event(Event::Token { kind, range })
            }),
            final(self)@.inv(),
    {
        self.last_token_event_pos = Some(self.events.len() as u32);
        self.push_event(Event::Token { kind, range });
    }

    pub(crate) fn push_event(&mut self, event: Event)
        ensures
            final(self)@ == old(self)@.with_event(event),
    {
        self.events.push(event)
    }

    /// Returns the number of events.
    pub(crate) fn event_count(&self) -> (count: usize)
        ensures
            count == self@.events.len(),
    {
        self.events.len()
    }

    /// Returns the event at `index`.
    pub(crate) fn event(&self, index: usize) -> (event: Event)
        requires
            index < self@.events.len(),
        ensures
            event == self@.events[index as int],
    {
        self.events[index]
    }

    /// Replaces the event at `index`.
    pub(crate) fn set_event(&mut self, index: usize, event: Event)
        requires
            index < old(self)@.events.len(),
        ensures
            final(self)@ == (ParserView {
                events: old(self)@.events.update(index as int, event),
                ..old(self)@
            }),
    {
        self.events.set(index, event);
    }

    /// Takes the last event off.
    pub(crate) fn pop_event(&mut self)
        requires
            old(self)@.events.len() > 0,
        ensures
            final(self)@ == (ParserView { events: old(self)@.events.drop_last(), ..old(self)@ }),
    {
        let _ = self.events.pop();
    }

    /// Gets the source code of the parser's current token.
    pub fn cur_src(&self) -> (text: &str)
        requires
            self@.inv(),
        ensures
            text@ == self@.cur_text(),
    {
        slice(self.tokens.source(), self.cur_range())
    }

    /// Tries to eat a specific token kind, and if the kind is not there then adds an error.
    pub fn expect(&mut self, kind: JsSyntaxKind) -> (eaten: bool)
        requires
            old(self)@.inv(),
            old(self)@.cur().same(kind) ==> old(self)@.can_bump(LexContextView::Regular),
        ensures
            eaten == old(self)@.cur().same(kind),
            final(self)@ == if eaten {
                old(self)@.bumped(kind, LexContextView::Regular)
            } else {
                old(self)@.reported(ExpectedToken { kind }.diagnostic_at(old(self)@))
            },
            final(self)@.inv(),
    {
        if self.eat(kind) {
            true
        } else {
            self.error(expected_token(kind));
            false
        }
    }

    /// Returns whether `context` reads the text from the current token on.
    pub fn can_re_lex(&self, context: &ReLexContext) -> (can: bool)
        requires
            self@.inv(),
        ensures
            can == self@.tokens.can_re_lex(context@),
    {
        self.tokens.can_re_lex(context)
    }

    /// Reads the current token anew in the specified context. Returns the kind of the token that
    /// is then the current one (can be the same as before if the context doesn't make a
    /// difference for the current token).
    pub fn re_lex(&mut self, context: ReLexContext) -> (kind: JsSyntaxKind)
        requires
            old(self)@.inv(),
            old(self)@.tokens.can_re_lex(context@),
        ensures
            final(self)@ == (ParserView {
                tokens: old(self)@.tokens.re_lexed(context@),
                ..old(self)@
            }),
            final(self)@.inv(),
            kind == final(self)@.cur(),
    {
        self.tokens.re_lex(context)
    }

    /// Returns whether the parser has come past what `checkpoint` records.
    pub fn can_rewind(&self, checkpoint: &Checkpoint) -> (can: bool)
        requires
            self@.inv(),
        ensures
            can == self@.can_rewind(checkpoint@),
    {
        self.tokens.can_rewind(&checkpoint.token_source) && checkpoint.event_pos
            <= self.cur_event_pos()
    }

    /// Rewinds the parser back to a previous position in time.
    pub fn rewind(&mut self, checkpoint: Checkpoint)
        requires
            old(self)@.can_rewind(checkpoint@),
        ensures
            final(self)@ == old(self)@.rewound(checkpoint@),
            final(self)@.tokens.inv(),
    {
        let Checkpoint { token_source, event_pos, errors_pos, state, last_token_pos } = checkpoint;
        self.tokens.rewind(token_source);
        self.last_token_event_pos = last_token_pos;
        self.drain_events(self.cur_event_pos() - event_pos);
        let ghost diagnostics = self.diagnostics@;
        self.diagnostics.truncate(errors_pos as usize);
        proof {
            if errors_pos <= diagnostics.len() {
                assert(views(self.diagnostics@) =~= views(diagnostics).take(errors_pos as int));
            }
        }
        self.state.restore(state)
    }

    /// Gets a checkpoint representing the progress of the parser at this point in time.
    #[must_use]
    pub fn checkpoint(&self) -> (checkpoint: Checkpoint)
        requires
            self@.diagnostics.len() <= u32::MAX,
        ensures
            checkpoint@ == self@.recorded(),
    {
        Checkpoint {
            token_source: self.tokens.checkpoint(),
            last_token_pos: self.last_token_event_pos,
            event_pos: self.cur_event_pos(),
            errors_pos: self.diagnostics.len() as u32,
            state: self.state.checkpoint(),
        }
    }

    /// Allows parsing an unsupported syntax as skipped trivia tokens.
    pub fn parse_as_skipped_trivia_tokens<P>(&mut self, parse: P) where P: FnOnce(&mut Parser<'s>)
        requires
            forall|p: &mut Parser<'s>|
                #![trigger parse.requires((p,))]
                p@ == (ParserView { skipping: true, ..old(self)@ }) ==> parse.requires((p,)),
        ensures
            exists|p: &mut Parser<'s>|
                #![trigger parse.ensures((p,), ())]
                {
                    &&& p@ == (ParserView { skipping: true, ..old(self)@ })
                    &&& parse.ensures((p,), ())
                    &&& final(self)@ == final(p)@.unskipped(old(self)@.events.len() as int)
                },
            !final(self)@.skipping,
            final(self)@.events.len() <= old(self)@.events.len(),
    {
        let events_pos: usize = self.events.len();
        self.skipping = true;
        parse(self);
        self.skipping = false;
        // Truncate any start/finish events
        self.events.truncate(events_pos);
    }

    /// Stores the parser state and position before calling the function and restores the state
    /// and position before returning.
    ///
    /// Useful in situation where the parser must advance a few tokens to determine whatever a
    /// syntax is of one or the other kind.
    pub fn lookahead<F, R>(&mut self, op: F) -> (result: R) where F: FnOnce(&mut Parser<'s>) -> R
        requires
            old(self)@.diagnostics.len() <= u32::MAX,
            forall|p: &mut Parser<'s>|
                #![trigger op.requires((p,))]
                p@ == old(self)@ ==> op.requires((p,)),
            forall|p: &mut Parser<'s>, r: R|
                #![trigger op.ensures((p,), r)]
                p@ == old(self)@ && op.ensures((p,), r) ==> final(p)@.can_rewind(
                    old(self)@.recorded(),
                ),
        ensures
            exists|p: &mut Parser<'s>|
                #![trigger op.ensures((p,), result)]
                {
                    &&& p@ == old(self)@
                    &&& op.ensures((p,), result)
                    &&& final(self)@ == final(p)@.rewound(old(self)@.recorded())
                },
            final(self)@.tokens.inv(),
            final(self)@.state == old(self)@.state,
            final(self)@.tokens.index == old(self)@.tokens.index,
            final(self)@.last_token_event_pos == old(self)@.last_token_event_pos,
            final(self)@.events.len() == old(self)@.events.len(),
    {
        let checkpoint = self.checkpoint();
        let result = op(self);
        self.rewind(checkpoint);
        result
    }

    /// Gets the position behind the last event.
    fn cur_event_pos(&self) -> (pos: usize)
        ensures
            pos == self@.events.len(),
    {
        self.events.len()
    }

    /// Removes `amount` events from the parser.
    fn drain_events(&mut self, amount: usize)
        requires
            amount <= old(self)@.events.len(),
        ensures
            final(self)@ == (ParserView {
                events: old(self)@.events.take(old(self)@.events.len() - amount),
                ..old(self)@
            }),
    {
        self.events.truncate(self.events.len() - amount);
    }

    /// Makes a new error builder with warning severity.
    pub fn warning_builder(&self, message: &str) -> (diagnostic: Diagnostic)
        ensures
            diagnostic@ == self@.syntax_error(Severity::Warning, message@),
    {
        Diagnostic::warning(self.file_id, "SyntaxError", message)
    }

    /// Returns whether the current token can be bumped as the only child of a node.
    pub fn can_err_and_bump(&self) -> (can: bool)
        requires
            self@.inv(),
        ensures
            can == self@.can_wrap_cur(),
    {
        let added: u64 = if self.skipping {
            1
        } else {
            2
        };
        self.cur() != JsSyntaxKind::EOF && self.events.len() as u64 <= u32::MAX as u64 - added
    }

    /// Bumps and adds an error event.
    pub fn err_and_bump<E: ToDiagnostic>(&mut self, err: E, unknown_syntax_kind: JsSyntaxKind)
        requires
            old(self)@.inv(),
            old(self)@.can_wrap_cur(),
        ensures
            final(self)@ == ({
                let wrapped = old(self)@.cur_wrapped(unknown_syntax_kind);
                wrapped.reported(err.diagnostic_at(wrapped))
            }),
            final(self)@.inv(),
    {
        let m = self.start();
        self.bump_any();
        let _ = m.complete(self, unknown_syntax_kind);
        self.error(err);
    }

    /// Returns whether a range cuts the source at character boundaries, in order.
    pub fn has_source(&self, span: TextRange) -> (has: bool)
        ensures
            has == valid_range(self@.tokens.source, span),
    {
        check_range(self.tokens.source(), span)
    }

    /// Gets the source of a range.
    pub fn source(&self, span: TextRange) -> (text: &'s str)
        requires
            valid_range(self@.tokens.source, span),
        ensures
            text@ == text_in(self@.tokens.source, span),
    {
        slice(self.tokens.source(), span)
    }

    /// Whether the code we are parsing is a module.
    pub fn is_module(&self) -> (module: bool)
        ensures
            module == (self@.source_type.module_kind is Module),
    {
        self.source_type.module_kind.is_module()
    }
}

/// The report of a token that was expected but is not there.
#[derive(Clone, Copy, Debug)]
pub struct ExpectedToken {
    pub kind: JsSyntaxKind,
}

/// Creates the report of a token of the given kind that was expected but is not there.
pub fn expected_token(kind: JsSyntaxKind) -> (report: ExpectedToken)
    ensures
        report.kind == kind,
{
    ExpectedToken { kind }
}

/// How a message speaks of a token of the given kind.
pub open spec fn token_name(kind: JsSyntaxKind) -> Seq<char> {
    match kind.fixed_text() {
        Some(text) => "`"@ + text + "`"@,
        None => "another token"@,
    }
}

impl ToDiagnostic for ExpectedToken {
    open spec fn diagnostic_at(self, p: ParserView) -> DiagnosticView {
        let expected = "expected "@ + token_name(self.kind);
        if p.cur() is EOF {
            p.syntax_error(
                Severity::Error,
                expected + " but instead the file ends"@,
            ).labelled(p.cur_range(), "the file ends here"@)
        } else {
            p.syntax_error(
                Severity::Error,
                expected + " but instead found `"@ + p.cur_text() + "`"@,
            ).labelled(p.cur_range(), "unexpected"@)
        }
    }

    fn to_diagnostic(self, p: &Parser<'_>) -> (diagnostic: Diagnostic) {
        let mut message = "expected ".to_owned();
        match self.kind.to_string() {
            Some(text) => {
                let mut name = "`".to_owned();
                name.append(text);
                name.append("`");
                message.append(name.as_str());
            },
            None => message.append("another token"),
        }
        if p.cur() == JsSyntaxKind::EOF {
            message.append(" but instead the file ends");
            p.err_builder(message.as_str()).primary(p.cur_range(), "the file ends here")
        } else {
            message.append(" but instead found `");
            message.append(p.cur_src());
            message.append("`");
            p.err_builder(message.as_str()).primary(p.cur_range(), "unexpected")
        }
    }
}

/// A diagnostic is reported as it is, wherever the parser is.
pub proof fn law_diagnostics_are_reported_as_they_are(diagnostic: Diagnostic, p: ParserView)
    ensures
        diagnostic.diagnostic_at(p) == diagnostic@,
{
}

} // verus!
