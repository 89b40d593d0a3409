//! The lexemes of a source text, and a position among its tokens.
use crate::diagnostic::{views, DiagnosticView, ParseDiagnostic};
use crate::syntax::{JsSyntaxKind, TriviaPieceKind};
use crate::text::{
    check_range, gap, has_line_break, holds_line_break, slice, text_in, valid_range, TextRange,
    TextSize,
};
use vstd::prelude::*;
use vstd::utf8::encode_utf8;

verus! {

/// A token as the lexer reads it.
#[derive(Clone, Copy, Debug)]
pub struct LexedToken {
    pub kind: JsSyntaxKind,
    pub range: TextRange,
    /// Whether a line break stands between this token and the one before it.
    pub preceding_line_break: bool,
    /// Whether the text of the token holds a unicode escape sequence.
    pub unicode_escape: bool,
}

/// A piece of the text between two tokens.
#[derive(Clone, Copy, Debug, PartialEq, Eq, Structural)]
pub struct Trivia {
    pub kind: TriviaPieceKind,
    pub range: TextRange,
}

/// What the lexer reads at one position.
#[derive(Clone, Copy, Debug)]
pub enum Lexeme {
    Token(LexedToken),
    Trivia(Trivia),
}

impl Lexeme {
    pub open spec fn span(self) -> TextRange {
        match self {
            Lexeme::Token(token) => token.range,
            Lexeme::Trivia(trivia) => trivia.range,
        }
    }

    /// Whether this is the token at the end of the file.
    pub open spec fn ends_file(self) -> bool {
        self matches Lexeme::Token(token) && token.kind is EOF
    }

    fn range(&self) -> (range: TextRange)
        ensures
            range == self.span(),
    {
        match self {
            Lexeme::Token(token) => token.range,
            Lexeme::Trivia(trivia) => trivia.range,
        }
    }

    fn is_trivia(&self) -> (trivia: bool)
        ensures
            trivia == (*self is Trivia),
    {
        match self {
            Lexeme::Token(_) => false,
            Lexeme::Trivia(_) => true,
        }
    }

    fn is_end(&self) -> (end: bool)
        ensures
            end == self.ends_file(),
    {
        match self {
            Lexeme::Token(token) => token.kind == JsSyntaxKind::EOF,
            Lexeme::Trivia(_) => false,
        }
    }
}

/// Whether `lexeme` can be read in `text`: it ends the file at the end of the text, or holds a
/// part of the text that is not empty, and a newline holds a line break.
pub open spec fn is_lexeme_of(text: Seq<char>, lexeme: Lexeme) -> bool {
    &&& valid_range(text, lexeme.span())
    &&& if lexeme.ends_file() {
        lexeme.span().start.raw == encode_utf8(text).len()
    } else {
        lexeme.span().start.raw < lexeme.span().end.raw
    }
    &&& lexeme matches Lexeme::Trivia(trivia) ==> {
        trivia.kind is Newline ==> has_line_break(text_in(text, trivia.range))
    }
}

/// Returns whether `lexeme` can be read in `text`.
fn check_lexeme(text: &str, lexeme: &Lexeme) -> (valid: bool)
    ensures
        valid == is_lexeme_of(text@, *lexeme),
{
    let range = lexeme.range();
    if !check_range(text, range) {
        return false;
    }
    if lexeme.is_end() {
        if range.start.raw as usize != text.as_bytes().len() {
            return false;
        }
    } else if range.start.raw >= range.end.raw {
        return false;
    }
    match lexeme {
        Lexeme::Trivia(trivia) => match trivia.kind {
            TriviaPieceKind::Newline => holds_line_break(slice(text, trivia.range)),
            _ => true,
        },
        Lexeme::Token(_) => true,
    }
}

/// The index of the first token at or behind `from`.
pub open spec fn next_token(lexed: Seq<Lexeme>, from: int) -> int
    decreases lexed.len() - from,
{
    if 0 <= from < lexed.len() && lexed[from] is Trivia {
        next_token(lexed, from + 1)
    } else {
        from
    }
}

/// Whether the lexeme at `i`, unless it ends the file, ends where the next one starts.
pub open spec fn is_joined(lexed: Seq<Lexeme>, i: int) -> bool {
    0 <= i < lexed.len() - 1 && !lexed[i].ends_file() ==> lexed[i].span().end == lexed[i
        + 1].span().start
}

/// Whether the token behind the one at `i`, unless that ends the file, is said to have a line
/// break before it exactly where the text between the two holds one.
pub open spec fn is_flagged(text: Seq<char>, lexed: Seq<Lexeme>, i: int) -> bool {
    let next = lexed[next_token(lexed, i + 1)];
    0 <= i < lexed.len() && lexed[i] is Token && !lexed[i].ends_file()
        ==> next->Token_0.preceding_line_break == has_line_break(
        text_in(text, gap(lexed[i].span(), next.span())),
    )
}

/// Whether the first token of `run` is said to have a line break before it exactly where
/// `line_break` says so of what stands before `run`, or the text of `run` before it holds one.
pub open spec fn is_first_flagged(text: Seq<char>, line_break: bool, run: Seq<Lexeme>) -> bool {
    let first = run[next_token(run, 0)];
    first->Token_0.preceding_line_break == (line_break || has_line_break(
        text_in(text, TextRange { start: run[0].span().start, end: first.span().start }),
    ))
}

/// Whether `run` is a reading of `text` from the byte `from` to the end of the file: lexemes
/// that fill the text without a gap, of which the last, and no other, ends the file.
/// `line_break` tells whether a line break stands between `from` and the token before it.
pub open spec fn is_run(text: Seq<char>, from: int, line_break: bool, run: Seq<Lexeme>) -> bool {
    &&& run.len() > 0
    &&& run.last().ends_file()
    &&& from == run[0].span().start.raw
    &&& forall|i: int| 0 <= i < run.len() ==> is_lexeme_of(text, #[trigger] run[i])
    &&& forall|i: int| 0 <= i < run.len() - 1 ==> !(#[trigger] run[i]).ends_file()
    &&& forall|i: int| #[trigger] is_joined(run, i)
    &&& is_first_flagged(text, line_break, run)
    &&& forall|i: int| #[trigger] is_flagged(text, run, i)
}

/// Returns whether `run` is a reading of `text` from the byte `from` to the end of the file.
pub fn check_run(text: &str, from: u32, line_break: bool, run: &Vec<Lexeme>) -> (valid: bool)
    ensures
        valid == is_run(text@, from as int, line_break, run@),
{
    let len: usize = run.len();
    if len == 0 || !run[len - 1].is_end() {
        return false;
    }
    proof {
        lemma_next_token(run@, 0);
    }
    let mut end: u32 = from;
    // The end of the last token, or the start of the reading
    let mut gap_start: u32 = from;
    let mut first: bool = true;
    let ghost mut last: int = -1;
    let mut i: usize = 0;
    while i < run.len()
        invariant
            len == run@.len(),
            i <= run@.len(),
            run@.len() > 0,
            run@.last().ends_file(),
            from == gap_start || i > 0,
            i == 0 ==> end == from && first,
            i > 0 ==> end == run@[i - 1].span().end.raw && from == run@[0].span().start.raw,
            i > 0 ==> valid_range(
                text@,
                TextRange { start: TextSize { raw: gap_start }, end: TextSize { raw: end } },
            ),
            forall|j: int| 0 <= j < i ==> is_lexeme_of(text@, #[trigger] run@[j]),
            forall|j: int| 0 <= j < i && j < run@.len() - 1 ==> !(#[trigger] run@[j]).ends_file(),
            forall|j: int| j < i - 1 ==> #[trigger] is_joined(run@, j),
            first <==> last == -1,
            first ==> gap_start == from && next_token(run@, 0) == next_token(run@, i as int),
            first && i == run@.len() ==> false,
            !first ==> {
                &&& 0 <= last < i
                &&& run@[last] is Token
                &&& gap_start == run@[last].span().end.raw
                &&& next_token(run@, last + 1) == next_token(run@, i as int)
                &&& is_first_flagged(text@, line_break, run@)
            },
            forall|j: int| last < j < i ==> (#[trigger] run@[j]) is Trivia,
            forall|j: int| j < last ==> #[trigger] is_flagged(text@, run@, j),
        decreases run@.len() - i,
    {
        let range = run[i].range();
        if range.start.raw != end {
            assert(i > 0 ==> !is_joined(run@, i - 1));
            return false;
        }
        if !check_lexeme(text, &run[i]) {
            assert(!is_lexeme_of(text@, run@[i as int]));
            return false;
        }
        if i < run.len() - 1 && run[i].is_end() {
            return false;
        }
        if let Lexeme::Token(token) = run[i] {
            let before = TextRange { start: TextSize { raw: gap_start }, end: range.start };
            let found: bool = holds_line_break(slice(text, before));
            if token.preceding_line_break != (found || (first && line_break)) {
                assert(first ==> !is_first_flagged(text@, line_break, run@));
                assert(!first ==> !is_flagged(text@, run@, last));
                return false;
            }
            gap_start = range.end.raw;
            first = false;
            proof {
                assert forall|j: int| j < i implies #[trigger] is_flagged(text@, run@, j) by {
                    if j > last && 0 <= j {
                        assert(run@[j] is Trivia);
                    }
                }
                last = i as int;
            }
        }
        end = range.end.raw;
        i = i + 1;
    }
    assert forall|j: int| #[trigger] is_flagged(text@, run@, j) by {
        if last <= j < run@.len() {
            assert(run@[run@.len() - 1] is Token);
            assert(last == run@.len() - 1);
        }
    }
    true
}

/// The pieces of trivia from `from` up to, but not including, `to`.
pub open spec fn trivia_between(lexed: Seq<Lexeme>, from: int, to: int) -> Seq<Trivia> {
    Seq::new((to - from) as nat, |i: int| lexed[from + i]->Trivia_0)
}

/// Whether `byte` lies in `range`.
pub open spec fn covers(range: TextRange, byte: int) -> bool {
    range.start.raw <= byte < range.end.raw
}

/// Whether `byte` lies in a lexeme from `from` up to, but not including, `to`.
pub open spec fn some_covers(lexed: Seq<Lexeme>, from: int, to: int, byte: int) -> bool {
    exists|i: int| from <= i < to && covers((#[trigger] lexed[i]).span(), byte)
}

/// Only trivia stands between `from` and the next token.
pub proof fn lemma_next_token(lexed: Seq<Lexeme>, from: int)
    requires
        0 <= from < lexed.len(),
        lexed.last() is Token,
    ensures
        from <= next_token(lexed, from) < lexed.len(),
        lexed[next_token(lexed, from)] is Token,
        forall|i: int| from <= i < next_token(lexed, from) ==> (#[trigger] lexed[i]) is Trivia,
    decreases lexed.len() - from,
{
    if lexed[from] is Trivia {
        lemma_next_token(lexed, from + 1);
    }
}

/// The next token does not depend on what stands behind the end of the file.
pub proof fn lemma_next_token_prefix(lexed: Seq<Lexeme>, longer: Seq<Lexeme>, from: int)
    requires
        0 <= from < lexed.len(),
        lexed.last() is Token,
        lexed.is_prefix_of(longer),
    ensures
        next_token(longer, from) == next_token(lexed, from),
    decreases lexed.len() - from,
{
    if lexed[from] is Trivia {
        lemma_next_token_prefix(lexed, longer, from + 1);
    }
}

/// The next token in a reading that stands behind others is the next token in that reading.
pub proof fn lemma_next_token_behind(lexed: Seq<Lexeme>, run: Seq<Lexeme>, from: int)
    requires
        0 <= from,
    ensures
        next_token(lexed + run, lexed.len() + from) == lexed.len() + next_token(run, from),
    decreases run.len() - from,
{
    if from < run.len() {
        assert((lexed + run)[lexed.len() + from] == run[from]);
        if run[from] is Trivia {
            lemma_next_token_behind(lexed, run, from + 1);
        }
    }
}

/// A new reading of the text, as another context of the grammar asks for, such as that of a
/// regular expression.
#[derive(Debug)]
pub struct ReLexContext {
    pub lexemes: Vec<Lexeme>,
    /// What the lexer reported.
    pub diagnostics: Vec<ParseDiagnostic>,
}

/// The model of a [`ReLexContext`].
pub struct ReLexContextView {
    pub lexemes: Seq<Lexeme>,
    pub diagnostics: Seq<DiagnosticView>,
}

impl View for ReLexContext {
    type V = ReLexContextView;

    open spec fn view(&self) -> ReLexContextView {
        ReLexContextView { lexemes: self.lexemes@, diagnostics: views(self.diagnostics@) }
    }
}

/// How the text behind the current token is read.
#[derive(Debug)]
pub enum LexContext {
    /// As it was read when the source was created.
    Regular,
    /// Anew, as another context of the grammar asks for, such as the inside of a template.
    Relexed(ReLexContext),
}

/// The model of a [`LexContext`].
pub enum LexContextView {
    Regular,
    Relexed(ReLexContextView),
}

impl View for LexContext {
    type V = LexContextView;

    open spec fn view(&self) -> LexContextView {
        match self {
            LexContext::Regular => LexContextView::Regular,
            LexContext::Relexed(reading) => LexContextView::Relexed(reading@),
        }
    }
}

impl Default for LexContext {
    fn default() -> (context: LexContext)
        ensures
            context@ is Regular,
    {
        LexContext::Regular
    }
}

/// The model of a [`TokenSource`].
#[verifier::ext_equal]
pub struct TokenSourceView {
    /// The source text.
    pub source: Seq<char>,
    /// All readings of the text so far, one behind the other. Each ends with the token that ends
    /// the file.
    pub lexed: Seq<Lexeme>,
    /// The index of the current token.
    pub index: int,
    /// The trivia that was passed.
    pub trivia: Seq<Trivia>,
    /// What the lexer reported.
    pub diagnostics: Seq<DiagnosticView>,
}

impl TokenSourceView {
    pub open spec fn inv(self) -> bool {
        &&& 0 <= self.index < self.lexed.len()
        &&& self.lexed[self.index] is Token
        &&& self.lexed.last().ends_file()
        &&& forall|i: int|
            0 <= i < self.lexed.len() ==> is_lexeme_of(self.source, #[trigger] self.lexed[i])
        &&& forall|i: int| #[trigger] is_joined(self.lexed, i)
        &&& forall|i: int| #[trigger] is_flagged(self.source, self.lexed, i)
    }

    /// The current token.
    pub open spec fn token(self) -> LexedToken {
        self.lexed[self.index]->Token_0
    }

    /// The byte at which the current token starts.
    pub open spec fn position(self) -> TextSize {
        self.token().range.start
    }

    /// Whether the current token ends the file.
    pub open spec fn at_end(self) -> bool {
        self.token().kind is EOF
    }

    /// Whether `context` reads the text behind the current token. At the end of the file there
    /// is nothing to read.
    pub open spec fn can_read(self, context: LexContextView) -> bool {
        context matches LexContextView::Relexed(reading) ==> self.at_end() || is_run(
            self.source,
            self.token().range.end.raw as int,
            false,
            reading.lexemes,
        )
    }

    /// The source with one more reading behind the others.
    pub open spec fn with_reading(self, reading: ReLexContextView) -> TokenSourceView {
        TokenSourceView {
            lexed: self.lexed + reading.lexemes,
            diagnostics: self.diagnostics + reading.diagnostics,
            ..self
        }
    }

    /// The source at the first token at or behind the index `from`, with the trivia before that
    /// token passed.
    pub open spec fn read_from(self, from: int) -> TokenSourceView {
        let next = next_token(self.lexed, from);
        TokenSourceView {
            index: next,
            trivia: self.trivia + trivia_between(self.lexed, from, next),
            ..self
        }
    }

    /// The source at the token behind the current one. At the end of the file it stays.
    pub open spec fn bumped(self, context: LexContextView) -> TokenSourceView {
        if self.at_end() {
            self
        } else {
            match context {
                LexContextView::Regular => self.read_from(self.index + 1),
                LexContextView::Relexed(reading) => self.with_reading(reading).read_from(
                    self.lexed.len() as int,
                ),
            }
        }
    }

    /// The source at the token behind the current one, with the current one passed as trivia.
    pub open spec fn skipped(self, context: LexContextView) -> TokenSourceView {
        if self.at_end() {
            self
        } else {
            TokenSourceView {
                trivia: self.trivia.push(
                    Trivia { kind: TriviaPieceKind::Skipped, range: self.token().range },
                ),
                ..self
            }.bumped(context)
        }
    }

    /// Whether `reading` reads the text from the current token on, starting with a token.
    pub open spec fn can_re_lex(self, reading: ReLexContextView) -> bool {
        &&& is_run(
            self.source,
            self.position().raw as int,
            self.token().preceding_line_break,
            reading.lexemes,
        )
        &&& reading.lexemes[0] is Token
    }

    /// The source with the text from the current token on read anew.
    pub open spec fn re_lexed(self, reading: ReLexContextView) -> TokenSourceView {
        TokenSourceView { index: self.lexed.len() as int, ..self.with_reading(reading) }
    }

    /// The index of the `n`th token behind the one at `index`, unless the file ends before.
    pub open spec fn nth_from(self, index: int, n: nat) -> Option<int>
        decreases n,
    {
        if n == 0 {
            Some(index)
        } else if self.lexed[index].ends_file() {
            None
        } else {
            self.nth_from(next_token(self.lexed, index + 1), (n - 1) as nat)
        }
    }

    /// The `n`th token behind the current one, unless the file ends before.
    pub open spec fn nth_token(self, n: nat) -> Option<LexedToken> {
        match self.nth_from(self.index, n) {
            Some(index) => Some(self.lexed[index]->Token_0),
            None => None,
        }
    }

    /// The kind of the `n`th token behind the current one.
    pub open spec fn nth_kind(self, n: nat) -> JsSyntaxKind {
        match self.nth_token(n) {
            Some(token) => token.kind,
            None => JsSyntaxKind::EOF,
        }
    }

    /// Whether a line break stands before the `n`th token behind the current one.
    pub open spec fn nth_line_break(self, n: nat) -> bool {
        self.nth_token(n) matches Some(token) && token.preceding_line_break
    }

    /// What a checkpoint of this source records.
    pub open spec fn recorded(self) -> TokenSourceCheckpointView {
        TokenSourceCheckpointView {
            index: self.index,
            trivia_len: self.trivia.len() as int,
            diagnostics_len: self.diagnostics.len() as int,
        }
    }

    /// Whether the source has read the token that `checkpoint` records.
    pub open spec fn can_rewind(self, checkpoint: TokenSourceCheckpointView) -> bool {
        &&& 0 <= checkpoint.index < self.lexed.len()
        &&& self.lexed[checkpoint.index] is Token
    }

    /// The source back at the token that `checkpoint` records, with the trivia passed and the
    /// reports made since then forgotten.
    pub open spec fn rewound(self, checkpoint: TokenSourceCheckpointView) -> TokenSourceView {
        TokenSourceView {
            index: checkpoint.index,
            trivia: if checkpoint.trivia_len <= self.trivia.len() {
                self.trivia.take(checkpoint.trivia_len)
            } else {
                self.trivia
            },
            diagnostics: if checkpoint.diagnostics_len <= self.diagnostics.len() {
                self.diagnostics.take(checkpoint.diagnostics_len)
            } else {
                self.diagnostics
            },
            ..self
        }
    }
}

/// Lexemes of which none ends the file fill the text from the start of the first to the start of
/// the one behind them.
pub proof fn lemma_filled(view: TokenSourceView, from: int, to: int)
    requires
        view.inv(),
        0 <= from <= to < view.lexed.len(),
        forall|i: int| from <= i < to ==> !(#[trigger] view.lexed[i]).ends_file(),
    ensures
        view.lexed[from].span().start.raw <= view.lexed[to].span().start.raw,
        from < to ==> view.lexed[from].span().end.raw <= view.lexed[to].span().start.raw,
        forall|byte: int|
            view.lexed[from].span().start.raw <= byte < view.lexed[to].span().start.raw
                ==> #[trigger] some_covers(view.lexed, from, to, byte),
    decreases to - from,
{
    if from < to {
        assert(is_joined(view.lexed, from));
        assert(is_lexeme_of(view.source, view.lexed[from]));
        lemma_filled(view, from + 1, to);
        assert forall|byte: int|
            view.lexed[from].span().start.raw <= byte
                < view.lexed[to].span().start.raw implies #[trigger] some_covers(
            view.lexed,
            from,
            to,
            byte,
        ) by {
            if byte < view.lexed[from].span().end.raw {
                assert(covers(view.lexed[from].span(), byte));
            } else {
                assert(some_covers(view.lexed, from + 1, to, byte));
                let i = choose|i: int|
                    from + 1 <= i < to && covers((#[trigger] view.lexed[i]).span(), byte);
                assert(from <= i < to && covers(view.lexed[i].span(), byte));
            }
        }
    }
}

/// A reading appended to those of a source leaves the source valid.
pub proof fn lemma_append_run(
    view: TokenSourceView,
    from: int,
    line_break: bool,
    reading: ReLexContextView,
)
    requires
        view.inv(),
        is_run(view.source, from, line_break, reading.lexemes),
    ensures
        view.with_reading(reading).inv(),
{
    let run = reading.lexemes;
    let joined = view.lexed + run;
    let len = view.lexed.len() as int;
    assert(joined.last() == run.last());
    assert forall|i: int| 0 <= i < joined.len() implies is_lexeme_of(
        view.source,
        #[trigger] joined[i],
    ) by {
        if i < len {
            assert(joined[i] == view.lexed[i]);
        } else {
            assert(joined[i] == run[i - len]);
        }
    }
    assert forall|i: int| #[trigger] is_joined(joined, i) by {
        if 0 <= i < joined.len() - 1 {
            if i < len - 1 {
                assert(is_joined(view.lexed, i));
            } else if i >= len {
                assert(is_joined(run, i - len));
            } else {
                assert(joined[i] == view.lexed.last());
            }
        }
    }
    assert forall|i: int| #[trigger] is_flagged(view.source, joined, i) by {
        if 0 <= i < joined.len() && joined[i] is Token && !joined[i].ends_file() {
            if i < len {
                assert(joined[i] == view.lexed[i]);
                assert(i != len - 1);
                assert(is_flagged(view.source, view.lexed, i));
                lemma_next_token(view.lexed, i + 1);
                lemma_next_token_prefix(view.lexed, joined, i + 1);
            } else {
                assert(joined[i] == run[i - len]);
                assert(i - len != run.len() - 1);
                assert(is_flagged(view.source, run, i - len));
                lemma_next_token(run, i - len + 1);
                lemma_next_token_behind(view.lexed, run, i - len + 1);
            }
        }
    }
}

/// Moving to the next token keeps a source valid, loses none of its lexemes, and does not move
/// back.
pub proof fn lemma_bumped(view: TokenSourceView, context: LexContextView)
    requires
        view.inv(),
        view.can_read(context),
    ensures
        view.bumped(context).inv(),
        view.lexed.is_prefix_of(view.bumped(context).lexed),
        !view.at_end() ==> view.token().range.end.raw <= view.bumped(context).position().raw,
        view.position().raw <= view.bumped(context).position().raw,
{
    if !view.at_end() {
        assert(is_lexeme_of(view.source, view.lexed[view.index]));
        match context {
            LexContextView::Regular => {
                assert(view.index != view.lexed.len() - 1);
                lemma_next_token(view.lexed, view.index + 1);
                lemma_filled(view, view.index, next_token(view.lexed, view.index + 1));
            },
            LexContextView::Relexed(reading) => {
                let joined = view.with_reading(reading);
                let len = view.lexed.len() as int;
                lemma_append_run(view, view.token().range.end.raw as int, false, reading);
                lemma_next_token(joined.lexed, len);
                assert(joined.lexed[len] == reading.lexemes[0]);
                lemma_filled(joined, len, next_token(joined.lexed, len));
            },
        }
    }
}

/// A point among the tokens of a [`TokenSource`].
#[derive(Clone, Copy, Debug)]
pub struct TokenSourceCheckpoint {
    index: usize,
    trivia_len: usize,
    diagnostics_len: usize,
}

/// The model of a [`TokenSourceCheckpoint`].
pub struct TokenSourceCheckpointView {
    pub index: int,
    pub trivia_len: int,
    pub diagnostics_len: int,
}

impl View for TokenSourceCheckpoint {
    type V = TokenSourceCheckpointView;

    closed spec fn view(&self) -> TokenSourceCheckpointView {
        TokenSourceCheckpointView {
            index: self.index as int,
            trivia_len: self.trivia_len as int,
            diagnostics_len: self.diagnostics_len as int,
        }
    }
}

/// The tokens of a source text, read one by one. Trivia is set aside on the way.
#[derive(Debug)]
pub struct TokenSource<'s> {
    source: &'s str,
    lexed: Vec<Lexeme>,
    index: usize,
    trivia: Vec<Trivia>,
    diagnostics: Vec<ParseDiagnostic>,
}

impl<'s> View for TokenSource<'s> {
    type V = TokenSourceView;

    closed spec fn view(&self) -> TokenSourceView {
        TokenSourceView {
            source: self.source@,
            lexed: self.lexed@,
            index: self.index as int,
            trivia: self.trivia@,
            diagnostics: views(self.diagnostics@),
        }
    }
}

impl<'s> TokenSource<'s> {
    /// Creates a source at the first token of `lexemes`, which must be a reading of the whole of
    /// `source`. `diagnostics` is what the lexer reported.
    pub fn from_lexemes(
        source: &'s str,
        lexemes: Vec<Lexeme>,
        diagnostics: Vec<ParseDiagnostic>,
    ) -> (token_source: Option<TokenSource<'s>>)
        ensures
            token_source is Some <==> is_run(source@, 0, false, lexemes@),
            token_source matches Some(token_source) ==> {
                &&& token_source@.inv()
                &&& token_source@ == TokenSourceView {
                    source: source@,
                    lexed: lexemes@,
                    index: 0,
                    trivia: Seq::empty(),
                    diagnostics: views(diagnostics@),
                }.read_from(0)
            },
    {
        if !check_run(source, 0, false, &lexemes) {
            return None;
        }
        let mut token_source = TokenSource {
            source,
            lexed: lexemes,
            index: 0,
            trivia: Vec::new(),
            diagnostics,
        };
        proof {
            lemma_next_token(lexemes@, 0);
        }
        token_source.advance_to(0);
        Some(token_source)
    }

    /// Moves to the first token at or behind the index `from`.
    fn advance_to(&mut self, from: usize)
        requires
            from < old(self)@.lexed.len(),
            old(self)@.lexed.last() is Token,
        ensures
            final(self)@ == old(self)@.read_from(from as int),
    {
        let ghost before = self@;
        proof {
            lemma_next_token(self@.lexed, from as int);
            assert(before.trivia + trivia_between(before.lexed, from as int, from as int)
                =~= before.trivia);
        }
        let mut next: usize = from;
        while self.lexed[next].is_trivia()
            invariant
                from <= next <= next_token(before.lexed, from as int) < before.lexed.len(),
                before.lexed[next_token(before.lexed, from as int)] is Token,
                next_token(before.lexed, next as int) == next_token(before.lexed, from as int),
                self@ == (TokenSourceView {
                    trivia: before.trivia + trivia_between(
                        before.lexed,
                        from as int,
                        next as int,
                    ),
                    ..before
                }),
            decreases before.lexed.len() - next,
        {
            if let Lexeme::Trivia(trivia) = self.lexed[next] {
                self.trivia.push(trivia);
            }
            assert(next < self.lexed.len());
            next = next + 1;
            proof {
                assert(self@.trivia =~= before.trivia + trivia_between(
                    before.lexed,
                    from as int,
                    next as int,
                ));
            }
        }
        self.index = next;
    }

    /// Consumes the source and returns the trivia that was passed and what the lexer reported.
    pub fn finish(self) -> (parts: (Vec<Trivia>, Vec<ParseDiagnostic>))
        ensures
            parts.0@ == self@.trivia,
            views(parts.1@) == self@.diagnostics,
    {
        (self.trivia, self.diagnostics)
    }

    fn token(&self) -> (token: LexedToken)
        requires
            self@.inv(),
        ensures
            token == self@.token(),
    {
        match self.lexed[self.index] {
            Lexeme::Token(token) => token,
            Lexeme::Trivia(_) => vstd::pervasive::unreached(),
        }
    }

    /// Returns the kind of the current token.
    pub fn current(&self) -> (kind: JsSyntaxKind)
        requires
            self@.inv(),
        ensures
            kind == self@.token().kind,
    {
        self.token().kind
    }

    /// Returns the range of the current token.
    pub fn current_range(&self) -> (range: TextRange)
        requires
            self@.inv(),
        ensures
            range == self@.token().range,
            valid_range(self@.source, range),
    {
        assert(is_lexeme_of(self@.source, self@.lexed[self@.index]));
        self.token().range
    }

    /// Returns the byte at which the current token starts.
    pub fn position(&self) -> (position: TextSize)
        requires
            self@.inv(),
        ensures
            position == self@.position(),
    {
        self.token().range.start
    }

    /// Returns whether a line break stands before the current token.
    pub fn has_preceding_line_break(&self) -> (line_break: bool)
        requires
            self@.inv(),
        ensures
            line_break == self@.token().preceding_line_break,
    {
        self.token().preceding_line_break
    }

    /// Returns whether the text of the current token holds a unicode escape sequence.
    pub fn has_unicode_escape(&self) -> (escape: bool)
        requires
            self@.inv(),
        ensures
            escape == self@.token().unicode_escape,
    {
        self.token().unicode_escape
    }

    /// Returns the source text.
    pub fn source(&self) -> (source: &'s str)
        ensures
            source@ == self@.source,
    {
        self.source
    }

    /// Returns the `n`th token behind the current one, unless the file ends before.
    fn nth_token(&self, n: usize) -> (token: Option<LexedToken>)
        requires
            self@.inv(),
        ensures
            token == self@.nth_token(n as nat),
    {
        let mut index: usize = self.index;
        let mut left: usize = n;
        while left > 0
            invariant
                self@.inv(),
                index < self@.lexed.len(),
                self@.lexed[index as int] is Token,
                self@.nth_from(self@.index, n as nat) == self@.nth_from(index as int, left as nat),
            decreases left,
        {
            if self.lexed[index].is_end() {
                return None;
            }
            proof {
                lemma_next_token(self@.lexed, index + 1);
            }
            let ghost from = index + 1;
            assert(index < self.lexed.len());
            index = index + 1;
            while self.lexed[index].is_trivia()
                invariant
                    from <= index <= next_token(self@.lexed, from) < self@.lexed.len(),
                    self@.lexed[next_token(self@.lexed, from)] is Token,
                    next_token(self@.lexed, index as int) == next_token(self@.lexed, from),
                decreases self@.lexed.len() - index,
            {
                assert(index < self.lexed.len());
                index = index + 1;
            }
            left = left - 1;
        }
        match self.lexed[index] {
            Lexeme::Token(token) => Some(token),
            Lexeme::Trivia(_) => None,
        }
    }

    /// Returns the kind of the `n`th token behind the current one. Behind the end of the file
    /// there are only further ends.
    pub fn nth(&mut self, n: usize) -> (kind: JsSyntaxKind)
        requires
            old(self)@.inv(),
        ensures
            kind == old(self)@.nth_kind(n as nat),
            final(self)@ == old(self)@,
    {
        match self.nth_token(n) {
            Some(token) => token.kind,
            None => JsSyntaxKind::EOF,
        }
    }

    /// Returns whether a line break stands before the `n`th token behind the current one.
    pub fn has_nth_preceding_line_break(&mut self, n: usize) -> (line_break: bool)
        requires
            old(self)@.inv(),
        ensures
            line_break == old(self)@.nth_line_break(n as nat),
            final(self)@ == old(self)@,
    {
        match self.nth_token(n) {
            Some(token) => token.preceding_line_break,
            None => false,
        }
    }

    /// Returns whether `context` reads the text behind the current token.
    pub fn can_read(&self, context: &LexContext) -> (can: bool)
        requires
            self@.inv(),
        ensures
            can == self@.can_read(context@),
    {
        match context {
            LexContext::Regular => true,
            LexContext::Relexed(reading) => {
                self.lexed[self.index].is_end() || check_run(
                    self.source,
                    self.token().range.end.raw,
                    false,
                    &reading.lexemes,
                )
            },
        }
    }

    /// Moves to the next token, which `context` reads. At the end of the file the source stays.
    pub fn bump(&mut self, context: LexContext)
        requires
            old(self)@.inv(),
            old(self)@.can_read(context@),
        ensures
            final(self)@ == old(self)@.bumped(context@),
            final(self)@.inv(),
    {
        proof {
            lemma_bumped(self@, context@);
        }
        if !self.lexed[self.index].is_end() {
            match context {
                LexContext::Regular => {
                    assert(self.index < self.lexed.len() - 1);
                    self.advance_to(self.index + 1);
                },
                LexContext::Relexed(reading) => {
                    let from: usize = self.lexed.len();
                    self.append_reading(reading);
                    self.advance_to(from);
                },
            }
        }
    }

    /// Moves to the next token, which `context` reads, and passes the current one as trivia. At
    /// the end of the file the source stays.
    pub fn skip_as_trivia(&mut self, context: LexContext)
        requires
            old(self)@.inv(),
            old(self)@.can_read(context@),
        ensures
            final(self)@ == old(self)@.skipped(context@),
            final(self)@.inv(),
    {
        if !self.lexed[self.index].is_end() {
            let range = self.current_range();
            self.trivia.push(Trivia { kind: TriviaPieceKind::Skipped, range });
            self.bump(context);
        }
    }

    /// Returns whether `context` reads the text from the current token on, starting with a token.
    pub fn can_re_lex(&self, context: &ReLexContext) -> (can: bool)
        requires
            self@.inv(),
        ensures
            can == self@.can_re_lex(context@),
    {
        let token = self.token();
        check_run(
            self.source,
            token.range.start.raw,
            token.preceding_line_break,
            &context.lexemes,
        ) && !context.lexemes[0].is_trivia()
    }

    /// Reads the text from the current token on anew and returns the kind of the token that is
    /// now the current one.
    pub fn re_lex(&mut self, context: ReLexContext) -> (kind: JsSyntaxKind)
        requires
            old(self)@.inv(),
            old(self)@.can_re_lex(context@),
        ensures
            final(self)@ == old(self)@.re_lexed(context@),
            final(self)@.inv(),
            kind == final(self)@.token().kind,
    {
        proof {
            lemma_append_run(
                self@,
                self@.position().raw as int,
                self@.token().preceding_line_break,
                context@,
            );
        }
        let from: usize = self.lexed.len();
        self.append_reading(context);
        self.index = from;
        self.token().kind
    }

    /// Adds a reading behind the others.
    fn append_reading(&mut self, reading: ReLexContext)
        ensures
            final(self)@ == old(self)@.with_reading(reading@),
    {
        let mut lexemes = reading.lexemes;
        let mut reports = reading.diagnostics;
        let ghost before = self.diagnostics@;
        let ghost added = reports@;
        self.lexed.append(&mut lexemes);
        self.diagnostics.append(&mut reports);
        assert(views(self.diagnostics@) =~= views(before) + views(added));
    }

    /// Records the current position.
    pub fn checkpoint(&self) -> (checkpoint: TokenSourceCheckpoint)
        ensures
            checkpoint@ == self@.recorded(),
    {
        TokenSourceCheckpoint {
            index: self.index,
            trivia_len: self.trivia.len(),
            diagnostics_len: self.diagnostics.len(),
        }
    }

    /// Returns whether the source has read the token that `checkpoint` records.
    pub fn can_rewind(&self, checkpoint: &TokenSourceCheckpoint) -> (can: bool)
        ensures
            can == self@.can_rewind(checkpoint@),
    {
        checkpoint.index < self.lexed.len() && !self.lexed[checkpoint.index].is_trivia()
    }

    /// Moves back to a recorded position.
    pub fn rewind(&mut self, checkpoint: TokenSourceCheckpoint)
        requires
            old(self)@.inv(),
            old(self)@.can_rewind(checkpoint@),
        ensures
            final(self)@ == old(self)@.rewound(checkpoint@),
            final(self)@.inv(),
    {
        self.index = checkpoint.index;
        self.trivia.truncate(checkpoint.trivia_len);
        let ghost diagnostics = self.diagnostics@;
        self.diagnostics.truncate(checkpoint.diagnostics_len);
        proof {
            let len = checkpoint.diagnostics_len as int;
            if len <= diagnostics.len() {
                assert(views(self.diagnostics@) =~= views(diagnostics).take(len));
            }
        }
    }
}

} // verus!
