//! The messages that a parser reports about its source text.
use crate::text::TextRange;
use vstd::prelude::*;

verus! {

/// How grave a diagnostic is.
#[derive(Clone, Copy, Debug, PartialEq, Eq, Structural)]
pub enum Severity {
    Warning,
    Error,
}

/// A range in one of several files.
#[derive(Clone, Copy, Debug, PartialEq, Eq, Structural)]
pub struct FileSpan {
    pub file: usize,
    pub range: TextRange,
}

/// A label on a part of the source text.
#[derive(Clone, Debug)]
pub struct SubDiagnostic {
    pub span: FileSpan,
    pub msg: String,
}

/// The model of a [`SubDiagnostic`].
pub struct SubDiagnosticView {
    pub span: FileSpan,
    pub msg: Seq<char>,
}

impl View for SubDiagnostic {
    type V = SubDiagnosticView;

    open spec fn view(&self) -> SubDiagnosticView {
        SubDiagnosticView { span: self.span, msg: self.msg@ }
    }
}

/// A message about a source text.
#[derive(Clone, Debug)]
pub struct Diagnostic {
    pub file_id: usize,
    pub severity: Severity,
    pub code: Option<String>,
    pub message: String,
    /// The label on the part of the text that the message is about.
    pub primary: Option<SubDiagnostic>,
}

/// A diagnostic of the parser or of the lexer.
pub type ParseDiagnostic = Diagnostic;

/// The model of a [`Diagnostic`].
pub struct DiagnosticView {
    pub file_id: usize,
    pub severity: Severity,
    pub code: Option<Seq<char>>,
    pub message: Seq<char>,
    pub primary: Option<SubDiagnosticView>,
}

impl View for Diagnostic {
    type V = DiagnosticView;

    open spec fn view(&self) -> DiagnosticView {
        DiagnosticView {
            file_id: self.file_id,
            severity: self.severity,
            code: match self.code {
                Some(code) => Some(code@),
                None => None,
            },
            message: self.message@,
            primary: match self.primary {
                Some(primary) => Some(primary@),
                None => None,
            },
        }
    }
}

impl DiagnosticView {
    /// The diagnostic with its label replaced.
    pub open spec fn labelled(self, range: TextRange, msg: Seq<char>) -> DiagnosticView {
        DiagnosticView {
            primary: Some(
                SubDiagnosticView { span: FileSpan { file: self.file_id, range }, msg },
            ),
            ..self
        }
    }

    /// Whether this is a syntax error that starts where `previous`, a syntax error in the same
    /// file, does.
    pub open spec fn repeats(self, previous: DiagnosticView) -> bool {
        &&& self.code == Some("SyntaxError"@)
        &&& previous.code == self.code
        &&& previous.file_id == self.file_id
        &&& self.primary matches Some(label)
        &&& previous.primary matches Some(previous_label)
        &&& label.span.range.start == previous_label.span.range.start
    }
}

/// The models of a list of diagnostics.
pub open spec fn views(diagnostics: Seq<Diagnostic>) -> Seq<DiagnosticView> {
    diagnostics.map_values(|diagnostic: Diagnostic| diagnostic@)
}

impl Diagnostic {
    /// Creates an error.
    pub fn error(file_id: usize, code: &str, message: &str) -> (diagnostic: Diagnostic)
        ensures
            diagnostic@ == (DiagnosticView {
                file_id,
                severity: Severity::Error,
                code: Some(code@),
                message: message@,
                primary: None,
            }),
    {
        Diagnostic {
            file_id,
            severity: Severity::Error,
            code: Some(code.to_owned()),
            message: message.to_owned(),
            primary: None,
        }
    }

    /// Creates a warning.
    pub fn warning(file_id: usize, code: &str, message: &str) -> (diagnostic: Diagnostic)
        ensures
            diagnostic@ == (DiagnosticView {
                file_id,
                severity: Severity::Warning,
                code: Some(code@),
                message: message@,
                primary: None,
            }),
    {
        Diagnostic {
            file_id,
            severity: Severity::Warning,
            code: Some(code.to_owned()),
            message: message.to_owned(),
            primary: None,
        }
    }

    /// Labels the part of the text that the diagnostic is about.
    pub fn primary(self, range: TextRange, msg: &str) -> (diagnostic: Diagnostic)
        ensures
            diagnostic@ == self@.labelled(range, msg@),
    {
        let span = FileSpan { file: self.file_id, range };
        Diagnostic {
            file_id: self.file_id,
            severity: self.severity,
            code: self.code,
            message: self.message,
            primary: Some(SubDiagnostic { span, msg: msg.to_owned() }),
        }
    }

    /// Returns whether this is a syntax error that starts where `previous`, a syntax error in
    /// the same file, does.
    pub fn is_repetition_of(&self, previous: &Diagnostic) -> (repeats: bool)
        ensures
            repeats == self@.repeats(previous@),
    {
        let syntax_error = "SyntaxError".to_owned();
        match (&self.code, &previous.code) {
            (Some(code), Some(previous_code)) => {
                if *code == syntax_error && *previous_code == *code && previous.file_id
                    == self.file_id {
                    match (&self.primary, &previous.primary) {
                        (Some(label), Some(previous_label)) => {
                            label.span.range.start == previous_label.span.range.start
                        },
                        _ => false,
                    }
                } else {
                    false
                }
            },
            _ => false,
        }
    }
}

/// The model of a diagnostic has what the diagnostic has, and that of a list has the models of its
/// elements in their order.
pub proof fn law_models_have_what_is_there(diagnostic: Diagnostic, all: Seq<Diagnostic>)
    ensures
        diagnostic@.file_id == diagnostic.file_id,
        diagnostic@.severity == diagnostic.severity,
        diagnostic@.message == diagnostic.message@,
        diagnostic@.code is Some <==> diagnostic.code is Some,
        diagnostic.code matches Some(code) ==> diagnostic@.code == Some(code@),
        diagnostic@.primary is Some <==> diagnostic.primary is Some,
        diagnostic.primary matches Some(label) ==> {
            &&& diagnostic@.primary->0.span == label.span
            &&& diagnostic@.primary->0.msg == label.msg@
        },
        views(all).len() == all.len(),
        forall|i: int| 0 <= i < all.len() ==> #[trigger] views(all)[i] == all[i]@,
{
}

/// Labelling a diagnostic replaces its label by one with the given range, in the file of the
/// diagnostic, and the given message, and changes nothing else.
pub proof fn law_label_is_what_was_given(
    diagnostic: DiagnosticView,
    range: TextRange,
    msg: Seq<char>,
)
    ensures
        ({
            let labelled = diagnostic.labelled(range, msg);
            &&& labelled.primary == Some(
                SubDiagnosticView { span: FileSpan { file: diagnostic.file_id, range }, msg },
            )
            &&& labelled.file_id == diagnostic.file_id
            &&& labelled.severity == diagnostic.severity
            &&& labelled.code == diagnostic.code
            &&& labelled.message == diagnostic.message
        }),
{
}

/// A diagnostic repeats another exactly if both are syntax errors of the same file with labels that
/// start at the same byte. Neither their messages, nor their severities, nor where the labels end
/// matter.
pub proof fn law_repetition_is_at_the_same_byte(left: DiagnosticView, right: DiagnosticView)
    ensures
        left.repeats(right) <==> {
            &&& left.code == Some("SyntaxError"@)
            &&& right.code == Some("SyntaxError"@)
            &&& left.file_id == right.file_id
            &&& left.primary is Some
            &&& right.primary is Some
            &&& left.primary->0.span.range.start.raw == right.primary->0.span.range.start.raw
        },
        left.repeats(right) == right.repeats(left),
{
}

} // verus!
