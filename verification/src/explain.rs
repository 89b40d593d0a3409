//! The text with which the command line explains a rule.
use vstd::prelude::*;
use vstd::string::*;

verus! {

/// `std::string::String::push`, which appends a character to a string.
pub assume_specification[ String::push ](string: &mut String, character: char)
    ensures
        final(string)@ == old(string)@.push(character),
;

/// The kind of the fix that a rule offers.
#[derive(Clone, Copy, Debug, PartialEq, Eq, Structural)]
pub enum FixKind {
    Safe,
    Unsafe,
}

impl FixKind {
    /// The name of the kind.
    pub open spec fn spec_name(self) -> Seq<char> {
        match self {
            FixKind::Safe => "Safe"@,
            FixKind::Unsafe => "Unsafe"@,
        }
    }

    /// Returns the name of the kind.
    pub fn name(&self) -> (name: &'static str)
        ensures
            name@ == self.spec_name(),
    {
        match self {
            FixKind::Safe => "Safe",
            FixKind::Unsafe => "Unsafe",
        }
    }
}

/// What is known of a rule.
#[derive(Clone, Copy, Debug)]
pub struct RuleMetadata {
    pub name: &'static str,
    /// The documentation of the rule.
    pub docs: &'static str,
    /// Whether the rule is recommended.
    pub recommended: bool,
    /// The kind of the fix that the rule offers, if it offers one.
    pub fix_kind: Option<FixKind>,
}

/// What the command line was asked to explain.
#[derive(Debug)]
pub enum Doc {
    Rule(RuleMetadata),
    /// Something that is not known.
    Unknown(String),
}

/// Why a command failed.
#[derive(Debug)]
pub enum CliDiagnostic {
    /// A subcommand was given an argument that it has no use for.
    UnexpectedArgument { argument: String, subcommand: String },
}

impl CliDiagnostic {
    /// Whether this says that `subcommand` has no use for `argument`.
    pub open spec fn is_unexpected_argument(
        self,
        argument: Seq<char>,
        subcommand: Seq<char>,
    ) -> bool {
        let CliDiagnostic::UnexpectedArgument { argument: given, subcommand: command } = self;
        given@ == argument && command@ == subcommand
    }

    /// Creates the report that `subcommand` has no use for `argument`.
    pub fn unexpected_argument(argument: String, subcommand: &str) -> (diagnostic: CliDiagnostic)
        ensures
            diagnostic.is_unexpected_argument(argument@, subcommand@),
    {
        CliDiagnostic::UnexpectedArgument { argument, subcommand: subcommand.to_owned() }
    }
}

/// Whether a character has the Unicode property `White_Space`.
pub open spec fn is_white_space(c: char) -> bool {
    ||| '\u{9}' <= c <= '\u{d}'
    ||| c == ' '
    ||| c == '\u{85}'
    ||| c == '\u{a0}'
    ||| c == '\u{1680}'
    ||| '\u{2000}' <= c <= '\u{200a}'
    ||| c == '\u{2028}'
    ||| c == '\u{2029}'
    ||| c == '\u{202f}'
    ||| c == '\u{205f}'
    ||| c == '\u{3000}'
}

/// Returns whether a character has the Unicode property `White_Space`.
pub fn has_white_space(c: char) -> (white: bool)
    ensures
        white == is_white_space(c),
{
    ('\u{9}' <= c && c <= '\u{d}') || c == ' ' || c == '\u{85}' || c == '\u{a0}' || c == '\u{1680}'
        || ('\u{2000}' <= c && c <= '\u{200a}') || c == '\u{2028}' || c == '\u{2029}' || c
        == '\u{202f}' || c == '\u{205f}' || c == '\u{3000}'
}

/// The index of the first line feed at or behind `from`, or the length of the text.
pub open spec fn line_end(text: Seq<char>, from: int) -> int
    decreases text.len() - from,
{
    if from >= text.len() || text[from] == '\n' {
        from
    } else {
        line_end(text, from + 1)
    }
}

/// A line without the carriage return that belongs to the line feed behind it.
pub open spec fn without_return(line: Seq<char>) -> Seq<char> {
    if line.len() > 0 && line.last() == '\r' {
        line.drop_last()
    } else {
        line
    }
}

/// The lines of the text from `from` on. Each ends at a line feed, or at a carriage return and a
/// line feed; behind the last one these may be missing.
pub open spec fn lines_from(text: Seq<char>, from: int) -> Seq<Seq<char>>
    decreases text.len() - from,
    when 0 <= from
    via lines_from_decreases
{
    let end = line_end(text, from);
    if from >= text.len() {
        seq![]
    } else if end < text.len() {
        seq![without_return(text.subrange(from, end))] + lines_from(text, end + 1)
    } else {
        seq![text.subrange(from, end)]
    }
}

#[via_fn]
proof fn lines_from_decreases(text: Seq<char>, from: int) {
    if from < text.len() {
        lemma_line_end(text, from);
    }
}

/// The end of a line lies behind its start, and no line feed lies between them.
proof fn lemma_line_end(text: Seq<char>, from: int)
    requires
        0 <= from <= text.len(),
    ensures
        from <= line_end(text, from) <= text.len(),
        line_end(text, from) < text.len() ==> text[line_end(text, from)] == '\n',
        forall|i: int| from <= i < line_end(text, from) ==> #[trigger] text[i] != '\n',
    decreases text.len() - from,
{
    if from < text.len() && text[from] != '\n' {
        lemma_line_end(text, from + 1);
    }
}

/// A line without the white space that it starts with.
pub open spec fn trim_start(line: Seq<char>) -> Seq<char>
    decreases line.len(),
{
    if line.len() > 0 && is_white_space(line[0]) {
        trim_start(line.skip(1))
    } else {
        line
    }
}

/// The lines of a text, each without the white space that it starts with.
pub open spec fn trimmed_lines(text: Seq<char>) -> Seq<Seq<char>> {
    lines_from(text, 0).map_values(|line: Seq<char>| trim_start(line))
}

/// What is left of a trimmed line is a suffix of it that does not start with white space, and
/// what was taken off is white space.
pub proof fn law_trim_start_takes_white_space(line: Seq<char>)
    ensures
        trim_start(line).len() <= line.len(),
        trim_start(line) == line.skip(line.len() - trim_start(line).len()),
        forall|i: int|
            0 <= i < line.len() - trim_start(line).len() ==> is_white_space(#[trigger] line[i]),
        trim_start(line).len() > 0 ==> !is_white_space(trim_start(line)[0]),
    decreases line.len(),
{
    if line.len() > 0 && is_white_space(line[0]) {
        let rest = line.skip(1);
        law_trim_start_takes_white_space(rest);
        let taken = line.len() - trim_start(line).len();
        assert(rest.skip(taken - 1) =~= line.skip(taken));
        assert forall|i: int| 0 <= i < taken implies is_white_space(#[trigger] line[i]) by {
            if i > 0 {
                assert(rest[i - 1] == line[i]);
            }
        }
    } else {
        assert(line.skip(0) =~= line);
    }
}

/// No line of a description starts with white space.
pub proof fn law_trimmed_lines_start_with_text(text: Seq<char>)
    ensures
        forall|i: int|
            0 <= i < trimmed_lines(text).len() && (#[trigger] trimmed_lines(text)[i]).len() > 0
                ==> !is_white_space(trimmed_lines(text)[i][0]),
{
    assert forall|i: int|
        0 <= i < trimmed_lines(text).len() && (#[trigger] trimmed_lines(text)[i]).len()
            > 0 implies !is_white_space(trimmed_lines(text)[i][0]) by {
        law_trim_start_takes_white_space(lines_from(text, 0)[i]);
    }
}

/// The lines one behind the other, with a line feed between two.
pub open spec fn joined(lines: Seq<Seq<char>>) -> Seq<char>
    decreases lines.len(),
{
    if lines.len() == 0 {
        seq![]
    } else if lines.len() == 1 {
        lines[0]
    } else {
        joined(lines.drop_last()).push('\n') + lines.last()
    }
}

/// Returns the characters of a text.
fn characters(text: &str) -> (characters: Vec<char>)
    ensures
        characters@ == text@,
{
    let mut characters: Vec<char> = Vec::new();
    for c in iter: text.chars()
        invariant
            iter.seq() == text@,
            characters@ == text@.take(iter.index()),
    {
        characters.push(c);
    }
    characters
}

/// Returns the lines of a text joined again, each without the white space that it starts with.
pub fn trim_lines(text: &str) -> (trimmed: String)
    ensures
        trimmed@ == joined(trimmed_lines(text@)),
{
    let text = characters(text);
    let mut trimmed = String::new();
    let mut from: usize = 0;
    let ghost mut done: Seq<Seq<char>> = seq![];
    assert(done + lines_from(text@, 0).map_values(|line: Seq<char>| trim_start(line))
        =~= trimmed_lines(text@));
    while from < text.len()
        invariant
            from <= text@.len(),
            trimmed@ == joined(done),
            from > 0 ==> done.len() > 0,
            done.len() > 0 ==> from > 0,
            trimmed_lines(text@) == done + lines_from(text@, from as int).map_values(
                |line: Seq<char>| trim_start(line),
            ),
        decreases text@.len() - from,
    {
        proof {
            lemma_line_end(text@, from as int);
        }
        let mut end: usize = from;
        while end < text.len() && text[end] != '\n'
            invariant
                from <= end <= text@.len(),
                line_end(text@, end as int) == line_end(text@, from as int),
            decreases text@.len() - end,
        {
            end = end + 1;
        }
        let stop: usize = if end < text.len() && end > from && text[end - 1] == '\r' {
            end - 1
        } else {
            end
        };
        let ghost line = text@.subrange(from as int, stop as int);
        let mut start: usize = from;
        assert(text@.subrange(start as int, stop as int) =~= line);
        while start < stop && has_white_space(text[start])
            invariant
                from <= start <= stop <= text@.len(),
                trim_start(text@.subrange(start as int, stop as int)) == trim_start(line),
            decreases stop - start,
        {
            proof {
                let rest = text@.subrange(start as int, stop as int);
                assert(rest.skip(1) =~= text@.subrange(start + 1, stop as int));
            }
            start = start + 1;
        }
        assert(trim_start(line) == text@.subrange(start as int, stop as int));
        if from > 0 {
            trimmed.push('\n');
        }
        let ghost before = trimmed@;
        assert(before =~= before + text@.subrange(start as int, start as int));
        let mut next: usize = start;
        while next < stop
            invariant
                start <= next <= stop <= text@.len(),
                trimmed@ == before + text@.subrange(start as int, next as int),
            decreases stop - next,
        {
            trimmed.push(text[next]);
            next = next + 1;
            assert(before + text@.subrange(start as int, next as int) =~= (before + text@.subrange(
                start as int,
                next - 1,
            )).push(text@[next - 1]));
        }
        let ghost rest = lines_from(text@, from as int);
        let ghost previous = done;
        proof {
            done = done.push(trim_start(line));
            assert(done.drop_last() =~= previous);
            assert(rest[0] =~= line);
        }
        from = if end < text.len() {
            end + 1
        } else {
            end
        };
        proof {
            let trim = |line: Seq<char>| trim_start(line);
            let left = lines_from(text@, from as int);
            assert(rest =~= seq![line] + left);
            assert(previous + rest.map_values(trim) =~= done + left.map_values(trim));
        }
    }
    assert(trimmed_lines(text@) =~= done);
    trimmed
}

impl RuleMetadata {
    /// The message that names the rule.
    pub open spec fn title(self) -> Seq<char> {
        "# "@ + self.name@ + "\n"@
    }

    /// The message about the fix of the rule.
    pub open spec fn fix(self) -> Seq<char> {
        match self.fix_kind {
            Some(kind) => "Fix is "@ + kind.spec_name() + ".\n"@,
            None => "No fix available.\n"@,
        }
    }

    /// The message that describes the rule.
    pub open spec fn description(self) -> Seq<char> {
        "This rule is "@ + (if self.recommended {
            "recommended."@
        } else {
            "not recommended."@
        }) + "\n\n"@ + "# Description\n"@ + joined(trimmed_lines(self.docs@))
    }
}

/// Returns the messages that explain a rule, in the order in which they are to be printed.
pub fn print_rule(metadata: &RuleMetadata) -> (messages: Vec<String>)
    ensures
        messages@.len() == 3,
        messages@[0]@ == metadata.title(),
        messages@[1]@ == metadata.fix(),
        messages@[1]@ == match metadata.fix_kind {
            Some(FixKind::Safe) => "Fix is Safe.\n"@,
            Some(FixKind::Unsafe) => "Fix is Unsafe.\n"@,
            None => "No fix available.\n"@,
        },
        messages@[2]@ == metadata.description(),
{
    proof {
        law_fix_is_that_of_the_rule(*metadata);
    }
    let mut title = "# ".to_owned();
    title.append(metadata.name);
    title.append("\n");

    let mut fix = String::new();
    if let Some(kind) = &metadata.fix_kind {
        fix.append("Fix is ");
        fix.append(kind.name());
        fix.append(".\n");
    } else {
        fix.append("No fix available.\n");
    }
    assert(fix@ =~= metadata.fix());

    let docs = trim_lines(metadata.docs);

    let mut description = "This rule is ".to_owned();
    description.append(if metadata.recommended { "recommended." } else { "not recommended." });
    description.append("\n\n");
    description.append("# Description\n");
    description.append(docs.as_str());

    let mut messages: Vec<String> = Vec::new();
    messages.push(title);
    messages.push(fix);
    messages.push(description);
    messages
}

/// Returns the messages that explain what the command line was asked for, or the report that it
/// is not known.
pub fn explain(doc: Doc) -> (messages: Result<Vec<String>, CliDiagnostic>)
    ensures
        match doc {
            Doc::Rule(metadata) => {
                &&& messages matches Ok(messages)
                &&& messages@.len() == 3
                &&& messages@[0]@ == metadata.title()
                &&& messages@[1]@ == metadata.fix()
                &&& messages@[1]@ == match metadata.fix_kind {
                    Some(FixKind::Safe) => "Fix is Safe.\n"@,
                    Some(FixKind::Unsafe) => "Fix is Unsafe.\n"@,
                    None => "No fix available.\n"@,
                }
                &&& messages@[2]@ == metadata.description()
            },
            Doc::Unknown(argument) => {
                &&& messages matches Err(diagnostic)
                &&& diagnostic.is_unexpected_argument(argument@, "explain"@)
            },
        },
{
    match doc {
        Doc::Rule(metadata) => Ok(print_rule(&metadata)),
        Doc::Unknown(argument) => Err(CliDiagnostic::unexpected_argument(argument, "explain")),
    }
}

/// The message about the fix tells the kind of the rule's own fix, or that there is none.
pub proof fn law_fix_is_that_of_the_rule(rule: RuleMetadata)
    ensures
        rule.fix_kind == Some(FixKind::Safe) ==> rule.fix() == "Fix is Safe.\n"@,
        rule.fix_kind == Some(FixKind::Unsafe) ==> rule.fix() == "Fix is Unsafe.\n"@,
        rule.fix_kind is None ==> rule.fix() == "No fix available.\n"@,
        rule.fix_kind matches Some(kind) ==> rule.fix() == "Fix is "@ + kind.spec_name() + ".\n"@,
        FixKind::Safe.spec_name() == "Safe"@,
        FixKind::Unsafe.spec_name() == "Unsafe"@,
{
    reveal_strlit("Fix is ");
    reveal_strlit("Safe");
    reveal_strlit("Unsafe");
    reveal_strlit(".\n");
    reveal_strlit("Fix is Safe.\n");
    reveal_strlit("Fix is Unsafe.\n");
    assert("Fix is "@ + "Safe"@ + ".\n"@ =~= "Fix is Safe.\n"@);
    assert("Fix is "@ + "Unsafe"@ + ".\n"@ =~= "Fix is Unsafe.\n"@);
}

/// The messages about the fixes of two rules are the same exactly if both offer a fix of the same
/// kind, or both offer none.
pub proof fn law_fixes_are_told_apart(left: RuleMetadata, right: RuleMetadata)
    ensures
        left.fix() == right.fix() <==> left.fix_kind == right.fix_kind,
{
    law_fix_is_that_of_the_rule(left);
    law_fix_is_that_of_the_rule(right);
    reveal_strlit("Fix is Safe.\n");
    reveal_strlit("Fix is Unsafe.\n");
    reveal_strlit("No fix available.\n");
    assert("Fix is Safe.\n"@.len() != "Fix is Unsafe.\n"@.len());
    assert("Fix is Safe.\n"@[0] != "No fix available.\n"@[0]);
    assert("Fix is Unsafe.\n"@[0] != "No fix available.\n"@[0]);
}

/// The first message is a heading of the name of the rule, and a line feed.
pub proof fn law_title_is_the_name(rule: RuleMetadata)
    ensures
        ({
            let title = rule.title();
            let len = rule.name@.len() as int;
            &&& title.len() == len + 3
            &&& title[0] == '#'
            &&& title[1] == ' '
            &&& title.subrange(2, len + 2) == rule.name@
            &&& title.last() == '\n'
        }),
{
    reveal_strlit("# ");
    reveal_strlit("\n");
    assert(rule.title().subrange(2, rule.name@.len() as int + 2) =~= rule.name@);
}

/// The last message tells whether the rule is recommended, and then has all of its documentation,
/// line by line without the white space that each starts with.
pub proof fn law_description_tells_and_describes(rule: RuleMetadata)
    ensures
        rule.recommended ==> rule.description()
            == "This rule is recommended.\n\n# Description\n"@ + joined(trimmed_lines(rule.docs@)),
        !rule.recommended ==> rule.description()
            == "This rule is not recommended.\n\n# Description\n"@ + joined(
            trimmed_lines(rule.docs@),
        ),
{
    reveal_strlit("This rule is ");
    reveal_strlit("recommended.");
    reveal_strlit("not recommended.");
    reveal_strlit("\n\n");
    reveal_strlit("# Description\n");
    reveal_strlit("This rule is recommended.\n\n# Description\n");
    reveal_strlit("This rule is not recommended.\n\n# Description\n");
    assert("This rule is "@ + "recommended."@ + "\n\n"@ + "# Description\n"@
        =~= "This rule is recommended.\n\n# Description\n"@);
    assert("This rule is "@ + "not recommended."@ + "\n\n"@ + "# Description\n"@
        =~= "This rule is not recommended.\n\n# Description\n"@);
}

/// The report about an argument tells that argument and that subcommand, and no others.
pub proof fn law_unexpected_argument_is_told(
    diagnostic: CliDiagnostic,
    argument: Seq<char>,
    subcommand: Seq<char>,
)
    ensures
        diagnostic.is_unexpected_argument(argument, subcommand) <==> (
        diagnostic matches CliDiagnostic::UnexpectedArgument { argument: given, subcommand: command }
            && given@ == argument && command@ == subcommand),
{
}

/// White space is what Unicode gives the property `White_Space`.
pub proof fn law_white_space(c: char)
    ensures
        is_white_space(c) <==> {
            let code = c as u32;
            ||| code >= 0x9 && code <= 0xd
            ||| code == 0x20
            ||| code == 0x85
            ||| code == 0xa0
            ||| code == 0x1680
            ||| code >= 0x2000 && code <= 0x200a
            ||| code == 0x2028
            ||| code == 0x2029
            ||| code == 0x202f
            ||| code == 0x205f
            ||| code == 0x3000
        },
{
}

/// The end of a line does not depend on what stands before it.
proof fn lemma_line_end_behind(text: Seq<char>, rest: Seq<char>, from: int, at: int)
    requires
        0 <= from,
        0 <= at <= rest.len(),
        from + rest.len() == text.len(),
        rest == text.subrange(from, text.len() as int),
    ensures
        line_end(text, from + at) == from + line_end(rest, at),
    decreases rest.len() - at,
{
    if at < rest.len() && rest[at] != '\n' {
        lemma_line_end_behind(text, rest, from, at + 1);
    }
}

/// The lines of a text from a point on are the lines of what stands there.
proof fn lemma_lines_behind(text: Seq<char>, rest: Seq<char>, from: int, at: int)
    requires
        0 <= from,
        0 <= at <= rest.len(),
        from + rest.len() == text.len(),
        rest == text.subrange(from, text.len() as int),
    ensures
        lines_from(text, from + at) == lines_from(rest, at),
    decreases rest.len() - at,
{
    if at < rest.len() {
        lemma_line_end_behind(text, rest, from, at);
        lemma_line_end(rest, at);
        let end = line_end(rest, at);
        assert(text.subrange(from + at, from + end) =~= rest.subrange(at, end));
        if end < rest.len() {
            lemma_lines_behind(text, rest, from, end + 1);
        }
    }
}

/// A line feed ends a line, and a carriage return directly before it does not belong to the line.
/// What stands behind the line feed has its own lines. A text without a line feed is one line,
/// unless it is empty.
pub proof fn law_lines_end_at_line_feeds(line: Seq<char>, rest: Seq<char>)
    requires
        !line.contains('\n'),
    ensures
        lines_from(line + seq!['\n'] + rest, 0) == seq![
            if line.len() > 0 && line.last() == '\r' {
                line.subrange(0, line.len() - 1)
            } else {
                line
            },
        ] + lines_from(rest, 0),
        line.len() > 0 ==> lines_from(line, 0) == seq![line],
        line.len() == 0 ==> lines_from(line, 0).len() == 0,
{
    let text = line + seq!['\n'] + rest;
    let len = line.len() as int;
    lemma_line_end(text, 0);
    lemma_line_end(line, 0);
    let end = line_end(text, 0);
    assert(text[len] == '\n');
    if end < len {
        assert(line[end] == '\n');
    }
    assert(end == len);
    assert(text.subrange(0, len) =~= line);
    assert(text.subrange(len + 1, text.len() as int) =~= rest);
    lemma_lines_behind(text, rest, len + 1, 0);
    assert(line.len() > 0 && line.last() == '\r' ==> without_return(line) =~= line.subrange(
        0,
        len - 1,
    ));
    if line_end(line, 0) < len {
        assert(line[line_end(line, 0)] == '\n');
    }
    assert(line.subrange(0, len) =~= line);
}

/// Each line of the documentation is trimmed by itself, and none is left out or added.
pub proof fn law_lines_are_trimmed_one_by_one(text: Seq<char>)
    ensures
        trimmed_lines(text).len() == lines_from(text, 0).len(),
        forall|i: int|
            0 <= i < trimmed_lines(text).len() ==> #[trigger] trimmed_lines(text)[i] == trim_start(
                lines_from(text, 0)[i],
            ),
{
}

/// Lines are joined with a line feed between two, and nothing before the first or behind the last.
pub proof fn law_lines_are_joined_with_line_feeds(lines: Seq<Seq<char>>, line: Seq<char>)
    ensures
        lines.len() == 0 ==> joined(lines).len() == 0,
        lines.len() == 0 ==> joined(lines.push(line)) == line,
        lines.len() > 0 ==> joined(lines.push(line)) == joined(lines) + seq!['\n'] + line,
{
    let longer = lines.push(line);
    assert(longer.drop_last() =~= lines);
    if lines.len() > 0 {
        assert(joined(lines).push('\n') =~= joined(lines) + seq!['\n']);
    }
}

} // verus!
