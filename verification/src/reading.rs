//! What a reading of a text is, and how the parser moves and looks along its tokens.
use crate::laws::law_nth_is_seen_after_bump;
use crate::syntax::{JsSyntaxKind, TriviaPieceKind};
use crate::text::{gap, has_line_break, is_line_break, text_in, TextRange};
use crate::token_source::{
    is_flagged, is_joined, is_lexeme_of, is_run, lemma_bumped, lemma_next_token, next_token,
    LexContext, LexContextView, Lexeme, ReLexContext, ReLexContextView, TokenSourceView, Trivia,
};
use vstd::prelude::*;
use vstd::utf8::{decode_utf8, encode_utf8, is_char_boundary};

verus! {

/// The byte at which a lexeme starts.
pub open spec fn start_of(lexeme: Lexeme) -> int {
    match lexeme {
        Lexeme::Token(token) => token.range.start.raw as int,
        Lexeme::Trivia(trivia) => trivia.range.start.raw as int,
    }
}

/// The byte at which a lexeme ends.
pub open spec fn end_of(lexeme: Lexeme) -> int {
    match lexeme {
        Lexeme::Token(token) => token.range.end.raw as int,
        Lexeme::Trivia(trivia) => trivia.range.end.raw as int,
    }
}

/// Whether a line ends in the text between two bytes.
pub open spec fn breaks_between(text: Seq<char>, from: int, to: int) -> bool {
    exists|c: char|
        (c == '\n' || c == '\r' || c == '\u{2028}' || c == '\u{2029}') && (#[trigger] decode_utf8(
            encode_utf8(text).subrange(from, to),
        ).contains(c))
}

/// Whether only trivia stands from `from` up to, but not including, `to`.
pub open spec fn only_trivia(lexed: Seq<Lexeme>, from: int, to: int) -> bool {
    forall|i: int| from <= i < to ==> (#[trigger] lexed[i]) is Trivia
}

/// Only trivia stands before the next token, and before no other.
proof fn lemma_next_token_is(lexed: Seq<Lexeme>, from: int, to: int)
    requires
        0 <= from <= to < lexed.len(),
        only_trivia(lexed, from, to),
        lexed[to] is Token,
    ensures
        next_token(lexed, from) == to,
    decreases to - from,
{
    if from < to {
        assert(lexed[from] is Trivia);
        lemma_next_token_is(lexed, from + 1, to);
    }
}

/// Two ways to say that a text holds a line break.
proof fn lemma_breaks(text: Seq<char>, range: TextRange)
    ensures
        has_line_break(text_in(text, range)) <==> breaks_between(
            text,
            range.start.raw as int,
            range.end.raw as int,
        ),
{
    let part = decode_utf8(
        encode_utf8(text).subrange(range.start.raw as int, range.end.raw as int),
    );
    if has_line_break(part) {
        let i = choose|i: int|
            0 <= i < part.len() && is_line_break(#[trigger] part[i]);
        assert(part.contains(part[i]));
    }
    if breaks_between(text, range.start.raw as int, range.end.raw as int) {
        let c = choose|c: char|
            (c == '\n' || c == '\r' || c == '\u{2028}' || c == '\u{2029}')
                && #[trigger] part.contains(c);
        let i = choose|i: int| 0 <= i < part.len() && part[i] == c;
        assert(is_line_break(part[i]));
    }
}

/// Whether lexemes start at the byte `from`, follow one another without a gap, are cut at character
/// boundaries, hold text but for the last one, and end with the end of the file, which no other
/// lexeme is; each newline holds a line break; and each token tells whether the text between it
/// and the token before it holds a line break.
pub open spec fn is_reading(text: Seq<char>, from: int, line_break: bool, run: Seq<Lexeme>) -> bool {
    let bytes = encode_utf8(text);
    let last = run.len() - 1;
    &&& run.len() > 0
    &&& start_of(run[0]) == from
    &&& start_of(run[last]) == bytes.len()
    &&& end_of(run[last]) == bytes.len()
    &&& forall|i: int|
        0 <= i < run.len() ==> ((#[trigger] run[i]) matches Lexeme::Token(token)
            && token.kind == JsSyntaxKind::EOF <==> i == last)
    &&& forall|i: int|
        0 <= i < run.len() ==> end_of(#[trigger] run[i]) <= bytes.len()
            && is_char_boundary(bytes, start_of(run[i])) && is_char_boundary(
            bytes,
            end_of(run[i]),
        )
    &&& forall|i: int| 0 <= i < last ==> start_of(#[trigger] run[i]) < end_of(run[i])
    &&& forall|i: int, j: int|
        0 <= i < last && j == i + 1 ==> end_of(#[trigger] run[i]) == start_of(
            #[trigger] run[j],
        )
    &&& forall|i: int|
        0 <= i < run.len() ==> ((#[trigger] run[i]) matches Lexeme::Trivia(trivia)
            ==> trivia.kind == TriviaPieceKind::Newline ==> breaks_between(
            text,
            start_of(run[i]),
            end_of(run[i]),
        ))
    &&& forall|i: int, j: int|
        0 <= i < j < run.len() && (#[trigger] run[i]) is Token && (#[trigger] run[j])
            is Token && only_trivia(run, i + 1, j) ==> run[j]->Token_0.preceding_line_break
            == breaks_between(text, end_of(run[i]), start_of(run[j]))
    &&& forall|j: int|
        0 <= j < run.len() && (#[trigger] run[j]) is Token && only_trivia(run, 0, j)
            ==> run[j]->Token_0.preceding_line_break == (line_break || breaks_between(
            text,
            start_of(run[0]),
            start_of(run[j]),
        ))
}

/// A reading is accepted exactly if it fills the text and tells the line breaks in it.
pub proof fn law_reading_is_accepted(text: Seq<char>, from: int, line_break: bool, run: Seq<Lexeme>)
    ensures
        is_run(text, from, line_break, run) <==> is_reading(text, from, line_break, run),
{
    if is_run(text, from, line_break, run) {
        lemma_run_is_reading(text, from, line_break, run);
    }
    if is_reading(text, from, line_break, run) {
        lemma_reading_is_run(text, from, line_break, run);
    }
}

proof fn lemma_run_is_reading(text: Seq<char>, from: int, line_break: bool, run: Seq<Lexeme>)
    requires
        is_run(text, from, line_break, run),
    ensures
        is_reading(text, from, line_break, run),
{
    let last = run.len() - 1;
    assert(is_lexeme_of(text, run[last]));
    assert(run.last() == run[last]);
    assert forall|i: int, j: int| 0 <= i < last && j == i + 1 implies end_of(#[trigger] run[i])
        == start_of(#[trigger] run[j]) by {
        assert(is_joined(run, i));
    }
    assert forall|i: int| 0 <= i < run.len() implies ((#[trigger] run[i]) matches Lexeme::Trivia(
        trivia,
    ) ==> trivia.kind == TriviaPieceKind::Newline ==> breaks_between(
        text,
        start_of(run[i]),
        end_of(run[i]),
    )) by {
        assert(is_lexeme_of(text, run[i]));
        lemma_breaks(text, run[i].span());
    }
    assert forall|i: int, j: int|
        0 <= i < j < run.len() && (#[trigger] run[i]) is Token && (#[trigger] run[j]) is Token
            && only_trivia(run, i + 1, j) implies run[j]->Token_0.preceding_line_break
        == breaks_between(text, end_of(run[i]), start_of(run[j])) by {
        assert(is_flagged(text, run, i));
        lemma_next_token_is(run, i + 1, j);
        lemma_breaks(text, gap(run[i].span(), run[j].span()));
    }
    assert forall|j: int|
        0 <= j < run.len() && (#[trigger] run[j]) is Token && only_trivia(run, 0, j) implies run[j]->Token_0.preceding_line_break
        == (line_break || breaks_between(text, start_of(run[0]), start_of(run[j]))) by {
        lemma_next_token_is(run, 0, j);
        lemma_breaks(text, TextRange { start: run[0].span().start, end: run[j].span().start });
    }
}

proof fn lemma_reading_is_run(text: Seq<char>, from: int, line_break: bool, run: Seq<Lexeme>)
    requires
        is_reading(text, from, line_break, run),
    ensures
        is_run(text, from, line_break, run),
{
    let last = run.len() - 1;
    assert(run.last() == run[last]);
    assert(run[last].ends_file());
    assert forall|i: int| 0 <= i < run.len() implies is_lexeme_of(text, #[trigger] run[i]) by {
        lemma_breaks(text, run[i].span());
        if i < last {
            assert(!run[i].ends_file());
        }
    }
    assert forall|i: int| #[trigger] is_joined(run, i) by {
        if 0 <= i < last {
            assert(end_of(run[i]) == start_of(run[i + 1]));
        }
    }
    lemma_next_token(run, 0);
    let first = next_token(run, 0);
    assert(only_trivia(run, 0, first));
    lemma_breaks(text, TextRange { start: run[0].span().start, end: run[first].span().start });
    assert forall|i: int| #[trigger] is_flagged(text, run, i) by {
        if 0 <= i < run.len() && run[i] is Token && !run[i].ends_file() {
            assert(i != last);
            lemma_next_token(run, i + 1);
            let next = next_token(run, i + 1);
            assert(only_trivia(run, i + 1, next));
            lemma_breaks(text, gap(run[i].span(), run[next].span()));
            assert(run[i] is Token && run[next] is Token);
        }
    }
}

// ---------------------------------------------------------------------------------------------
// Moving along the tokens.
// ---------------------------------------------------------------------------------------------
/// Whether `after` is `before` moved to the first token at or behind the index `from`, with the
/// trivia that stands before it added to what was passed.
pub open spec fn moves_to_next(before: TokenSourceView, from: int, after: TokenSourceView) -> bool {
    let len = before.trivia.len() as int;
    &&& from <= after.index < before.lexed.len()
    &&& before.lexed[after.index] is Token
    &&& only_trivia(before.lexed, from, after.index)
    &&& after.lexed == before.lexed
    &&& after.source == before.source
    &&& after.diagnostics == before.diagnostics
    &&& after.trivia.len() == len + (after.index - from)
    &&& forall|i: int| 0 <= i < len ==> #[trigger] after.trivia[i] == before.trivia[i]
    &&& forall|i: int, j: int|
        from <= i < after.index && j == len + (i - from) ==> (#[trigger] before.lexed[i])
            == Lexeme::Trivia(#[trigger] after.trivia[j])
}

/// A source starts at the first token of its reading, with the trivia before it passed.
pub proof fn law_source_starts_at_first_token(tokens: TokenSourceView)
    requires
        tokens.lexed.len() > 0,
        tokens.lexed.last() is Token,
    ensures
        moves_to_next(tokens, 0, tokens.read_from(0)),
{
    lemma_next_token(tokens.lexed, 0);
}

/// Moving on goes to the token behind the current one and passes the trivia between the two. With a
/// new reading it goes to the first token of that reading, whose lexemes and reports come behind
/// those that are there. At the end of the file the source stays.
pub proof fn law_bump_moves_to_next(tokens: TokenSourceView, context: LexContextView)
    requires
        tokens.inv(),
        tokens.can_read(context),
    ensures
        ({
            let after = tokens.bumped(context);
            let ended = tokens.lexed[tokens.index]->Token_0.kind == JsSyntaxKind::EOF;
            &&& ended ==> after == tokens
            &&& !ended ==> match context {
                LexContextView::Regular => moves_to_next(tokens, tokens.index + 1, after),
                LexContextView::Relexed(reading) => moves_to_next(
                    TokenSourceView {
                        source: tokens.source,
                        lexed: tokens.lexed + reading.lexemes,
                        index: tokens.index,
                        trivia: tokens.trivia,
                        diagnostics: tokens.diagnostics + reading.diagnostics,
                    },
                    tokens.lexed.len() as int,
                    after,
                ),
            }
        }),
{
    lemma_bumped(tokens, context);
    if !tokens.at_end() {
        match context {
            LexContextView::Regular => {
                assert(tokens.index != tokens.lexed.len() - 1);
                lemma_next_token(tokens.lexed, tokens.index + 1);
            },
            LexContextView::Relexed(reading) => {
                let joined = tokens.lexed + reading.lexemes;
                assert(joined.last() == reading.lexemes.last());
                lemma_next_token(joined, tokens.lexed.len() as int);
            },
        }
    }
}

/// Skipping a token moves on as bumping does, and passes that token as a piece of skipped trivia
/// before the trivia behind it.
pub proof fn law_skip_passes_the_token(tokens: TokenSourceView, context: LexContextView)
    ensures
        ({
            let token = tokens.lexed[tokens.index]->Token_0;
            let after = tokens.skipped(context);
            &&& token.kind == JsSyntaxKind::EOF ==> after == tokens
            &&& token.kind != JsSyntaxKind::EOF ==> after == (TokenSourceView {
                source: tokens.source,
                lexed: tokens.lexed,
                index: tokens.index,
                trivia: tokens.trivia.push(
                    Trivia { kind: TriviaPieceKind::Skipped, range: token.range },
                ),
                diagnostics: tokens.diagnostics,
            }).bumped(context)
        }),
{
}

/// Reading anew goes to the start of the new reading, whose lexemes and reports come behind those
/// that are there, and passes nothing.
pub proof fn law_re_lex_goes_to_new_reading(tokens: TokenSourceView, reading: ReLexContextView)
    ensures
        tokens.re_lexed(reading) == (TokenSourceView {
            source: tokens.source,
            lexed: tokens.lexed + reading.lexemes,
            index: tokens.lexed.len() as int,
            trivia: tokens.trivia,
            diagnostics: tokens.diagnostics + reading.diagnostics,
        }),
{
}

/// A new reading must fill the text behind the current token, unless the file has ended, or from
/// the current token on, where that token is read anew.
pub proof fn law_when_a_reading_can_be_used(
    tokens: TokenSourceView,
    context: LexContextView,
    reading: ReLexContextView,
)
    ensures
        ({
            let token = tokens.lexed[tokens.index]->Token_0;
            &&& context is Regular ==> tokens.can_read(context)
            &&& context matches LexContextView::Relexed(next) ==> (tokens.can_read(context)
                <==> token.kind == JsSyntaxKind::EOF || is_reading(
                tokens.source,
                token.range.end.raw as int,
                false,
                next.lexemes,
            ))
            &&& tokens.can_re_lex(reading) <==> {
                &&& is_reading(
                    tokens.source,
                    token.range.start.raw as int,
                    token.preceding_line_break,
                    reading.lexemes,
                )
                &&& reading.lexemes[0] is Token
            }
        }),
{
    let token = tokens.lexed[tokens.index]->Token_0;
    law_reading_is_accepted(
        tokens.source,
        token.range.start.raw as int,
        token.preceding_line_break,
        reading.lexemes,
    );
    if let LexContextView::Relexed(next) = context {
        law_reading_is_accepted(
            tokens.source,
            token.range.end.raw as int,
            false,
            next.lexemes,
        );
    }
}

// ---------------------------------------------------------------------------------------------
// Looking ahead.
// ---------------------------------------------------------------------------------------------
/// Looking no token ahead shows the current token. Looking further ahead shows what looking one
/// token less ahead shows after a bump: the same kind, and the same line break before it.
pub proof fn law_looking_ahead_is_looking_after_a_bump(tokens: TokenSourceView, n: nat)
    requires
        tokens.inv(),
    ensures
        ({
            let token = tokens.lexed[tokens.index]->Token_0;
            let after = tokens.bumped(LexContextView::Regular);
            &&& tokens.nth_kind(0) == token.kind
            &&& tokens.nth_line_break(0) == token.preceding_line_break
            &&& token.kind != JsSyntaxKind::EOF ==> {
                &&& tokens.nth_kind(n + 1) == after.nth_kind(n)
                &&& tokens.nth_line_break(n + 1) == after.nth_line_break(n)
                &&& tokens.nth_kind(1) == after.lexed[after.index]->Token_0.kind
                &&& tokens.nth_line_break(1)
                    == after.lexed[after.index]->Token_0.preceding_line_break
            }
            &&& token.kind == JsSyntaxKind::EOF ==> {
                &&& tokens.nth_kind(n) == JsSyntaxKind::EOF
                &&& !tokens.nth_line_break(n + 1)
            }
        }),
{
    if !tokens.at_end() {
        law_nth_is_seen_after_bump(tokens, n);
        law_nth_is_seen_after_bump(tokens, 0);
    }
}

/// What is seen ahead is the kind of a token of the source, or the end of the file.
pub proof fn law_what_is_ahead_is_read(tokens: TokenSourceView, n: nat)
    requires
        tokens.inv(),
    ensures
        tokens.nth_kind(n) == JsSyntaxKind::EOF || exists|i: int|
            tokens.index <= i < tokens.lexed.len() && (#[trigger] tokens.lexed[i]) is Token
                && tokens.lexed[i]->Token_0.kind == tokens.nth_kind(n)
                && tokens.lexed[i]->Token_0.preceding_line_break == tokens.nth_line_break(n),
    decreases n,
{
    lemma_nth_is_ahead(tokens, tokens.index, n);
}

/// The tokens ahead stand at or behind the index.
proof fn lemma_nth_is_ahead(tokens: TokenSourceView, index: int, n: nat)
    requires
        tokens.inv(),
        0 <= index < tokens.lexed.len(),
        tokens.lexed[index] is Token,
    ensures
        tokens.nth_from(index, n) matches Some(found) ==> index <= found < tokens.lexed.len()
            && tokens.lexed[found] is Token,
    decreases n,
{
    if n > 0 && !tokens.lexed[index].ends_file() {
        assert(index != tokens.lexed.len() - 1);
        lemma_next_token(tokens.lexed, index + 1);
        lemma_nth_is_ahead(tokens, next_token(tokens.lexed, index + 1), (n - 1) as nat);
    }
}

/// The model of a context has the lexemes and the reports of the new reading, if it has one.
pub proof fn law_contexts_are_modelled(context: LexContext, reading: ReLexContext)
    ensures
        context is Regular <==> context@ is Regular,
        context matches LexContext::Relexed(next) ==> context@ == LexContextView::Relexed(next@),
        reading@.lexemes == reading.lexemes@,
        reading@.diagnostics.len() == reading.diagnostics@.len(),
        forall|i: int|
            0 <= i < reading.diagnostics@.len() ==> #[trigger] reading@.diagnostics[i]
                == reading.diagnostics@[i]@,
{
}

} // verus!
