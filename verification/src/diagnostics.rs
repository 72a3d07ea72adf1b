//! Errors and warnings collected while a schema is analysed.

use vstd::prelude::*;
use crate::text::string_views;

verus! {

/// A half-open byte range `[start, end)` in one registered source text.
#[derive(Clone, Copy, Debug, PartialEq, Eq, Structural, Hash)]
pub struct Span {
    /// Index of the source text in the registry.
    pub file: usize,
    pub start: usize,
    pub end: usize,
}

impl Span {
    pub fn new(file: usize, start: usize, end: usize) -> (span: Span)
        ensures
            span == (Span { file, start, end }),
    {
        Span { file, start, end }
    }
}

/// What went wrong, independent of the wording of the message.
#[derive(Clone, Copy, Debug, PartialEq, Eq, Structural)]
pub enum ErrorKind {
    /// Reported by the parser and passed on unchanged.
    Syntax,
    /// A name was looked up and is not declared.
    NotFound,
    /// A value has another type than its place asks for.
    TypeMismatch,
    /// A required field is absent.
    MissingField,
    /// A name is declared twice in one declaration.
    DuplicateField,
    /// A field that the declaration does not know.
    UnknownField,
    /// A construct that the language reserves but does not support.
    UnsupportedConstruct,
    /// Classes that depend on each other in a circle.
    Cycle,
    /// Any other rule on the structure of a declaration.
    Validation,
}

/// An error in a schema.
#[derive(Debug)]
pub struct DatamodelError {
    pub kind: ErrorKind,
    pub message: String,
    /// The names the error is about: the candidates of a failed lookup, the
    /// members of a cycle in order.
    pub names: Vec<String>,
    pub span: Span,
}

/// The mathematical content of a [`DatamodelError`].
pub struct ErrorView {
    pub kind: ErrorKind,
    pub message: Seq<char>,
    pub names: Seq<Seq<char>>,
    pub span: Span,
}

impl View for DatamodelError {
    type V = ErrorView;

    open spec fn view(&self) -> ErrorView {
        ErrorView {
            kind: self.kind,
            message: self.message@,
            names: string_views(self.names@),
            span: self.span,
        }
    }
}

impl DatamodelError {
    /// An error of the given kind that concerns no particular names.
    pub fn new(kind: ErrorKind, message: String, span: Span) -> (e: DatamodelError)
        ensures
            e@ == (ErrorView { kind, message: message@, names: Seq::empty(), span }),
    {
        let e = DatamodelError { kind, message, names: Vec::new(), span };
        assert(string_views(e.names@) =~= Seq::empty());
        e
    }

    /// A structural validation error.
    pub fn new_validation_error(message: &str, span: Span) -> (e: DatamodelError)
        ensures
            e@ == (ErrorView {
                kind: ErrorKind::Validation,
                message: message@,
                names: Seq::empty(),
                span,
            }),
    {
        DatamodelError::new(ErrorKind::Validation, message.to_string(), span)
    }

    /// An error that carries the names it is about.
    pub fn with_names(kind: ErrorKind, message: String, names: Vec<String>, span: Span) -> (e:
        DatamodelError)
        ensures
            e@ == (ErrorView { kind, message: message@, names: string_views(names@), span }),
    {
        DatamodelError { kind, message, names, span }
    }

    pub fn message(&self) -> (m: &str)
        ensures
            m@ == self@.message,
    {
        self.message.as_str()
    }

    pub fn span(&self) -> (s: Span)
        ensures
            s == self.span,
    {
        self.span
    }
}

/// A warning: the schema is accepted, the author should look again.
#[derive(Debug)]
pub struct DatamodelWarning {
    pub message: String,
    pub span: Span,
}

/// The mathematical content of a [`DatamodelWarning`].
pub struct WarningView {
    pub message: Seq<char>,
    pub span: Span,
}

impl View for DatamodelWarning {
    type V = WarningView;

    open spec fn view(&self) -> WarningView {
        WarningView { message: self.message@, span: self.span }
    }
}

impl DatamodelWarning {
    pub fn new(message: String, span: Span) -> (w: DatamodelWarning)
        ensures
            w@ == (WarningView { message: message@, span }),
    {
        DatamodelWarning { message, span }
    }

    pub fn message(&self) -> (m: &str)
        ensures
            m@ == self@.message,
    {
        self.message.as_str()
    }

    pub fn span(&self) -> (s: Span)
        ensures
            s == self.span,
    {
        self.span
    }
}

/// One entry of the diagnostics.
#[derive(Debug)]
pub enum Diagnostic {
    Error(DatamodelError),
    Warning(DatamodelWarning),
}

/// The mathematical content of a [`Diagnostic`].
pub enum DiagnosticView {
    Error(ErrorView),
    Warning(WarningView),
}

impl View for Diagnostic {
    type V = DiagnosticView;

    open spec fn view(&self) -> DiagnosticView {
        match self {
            Diagnostic::Error(e) => DiagnosticView::Error(e@),
            Diagnostic::Warning(w) => DiagnosticView::Warning(w@),
        }
    }
}

/// There is an error among the entries.
pub open spec fn any_error(entries: Seq<DiagnosticView>) -> bool {
    exists|i: int| 0 <= i < entries.len() && (#[trigger] entries[i]) is Error
}

/// The errors among the first `n` entries, in order.
pub open spec fn errors_among(entries: Seq<DiagnosticView>, n: nat) -> Seq<ErrorView>
    decreases n,
{
    if n == 0 || n > entries.len() {
        Seq::empty()
    } else {
        match entries[n - 1] {
            DiagnosticView::Error(e) => errors_among(entries, (n - 1) as nat).push(e),
            DiagnosticView::Warning(_) => errors_among(entries, (n - 1) as nat),
        }
    }
}

/// The warnings among the first `n` entries, in order.
pub open spec fn warnings_among(entries: Seq<DiagnosticView>, n: nat) -> Seq<WarningView>
    decreases n,
{
    if n == 0 || n > entries.len() {
        Seq::empty()
    } else {
        match entries[n - 1] {
            DiagnosticView::Warning(w) => warnings_among(entries, (n - 1) as nat).push(w),
            DiagnosticView::Error(_) => warnings_among(entries, (n - 1) as nat),
        }
    }
}

/// The errors and warnings of one validation run, in the order in which
/// they were found.
#[derive(Debug)]
pub struct Diagnostics {
    pub entries: Vec<Diagnostic>,
}

impl View for Diagnostics {
    type V = Seq<DiagnosticView>;

    open spec fn view(&self) -> Seq<DiagnosticView> {
        Seq::new(self.entries@.len(), |i: int| self.entries@[i]@)
    }
}

impl Diagnostics {
    pub fn new() -> (d: Diagnostics)
        ensures
            d@ == Seq::<DiagnosticView>::empty(),
    {
        let d = Diagnostics { entries: Vec::new() };
        assert(d@ =~= Seq::empty());
        d
    }

    pub fn push_error(&mut self, error: DatamodelError)
        ensures
            final(self)@ == old(self)@.push(DiagnosticView::Error(error@)),
    {
        self.entries.push(Diagnostic::Error(error));
        assert(self@ =~= old(self)@.push(DiagnosticView::Error(error@)));
    }

    pub fn push_warning(&mut self, warning: DatamodelWarning)
        ensures
            final(self)@ == old(self)@.push(DiagnosticView::Warning(warning@)),
    {
        self.entries.push(Diagnostic::Warning(warning));
        assert(self@ =~= old(self)@.push(DiagnosticView::Warning(warning@)));
    }

    /// Moves every entry of `other` behind the entries already present.
    pub fn push(&mut self, other: Diagnostics)
        ensures
            final(self)@ == old(self)@ + other@,
    {
        let mut other = other;
        let ghost added = other@;
        self.entries.append(&mut other.entries);
        assert(self@ =~= old(self)@ + added);
    }

    /// Whether an error was found.
    pub fn has_errors(&self) -> (r: bool)
        ensures
            r == any_error(self@),
    {
        let mut i: usize = 0;
        while i < self.entries.len()
            invariant
                i <= self.entries.len(),
                forall|j: int| 0 <= j < i ==> !((#[trigger] self@[j]) is Error),
            decreases self.entries.len() - i,
        {
            match &self.entries[i] {
                Diagnostic::Error(_) => {
                    assert(self@[i as int] is Error);
                    return true;
                },
                Diagnostic::Warning(_) => {},
            }
            i += 1;
        }
        false
    }

    /// The errors, in the order in which they were found.
    pub fn errors(&self) -> (r: Vec<&DatamodelError>)
        ensures
            r@.len() == errors_among(self@, self@.len()).len(),
            forall|i: int|
                0 <= i < r@.len() ==> (#[trigger] r@[i])@ == errors_among(self@, self@.len())[i],
    {
        let mut out: Vec<&DatamodelError> = Vec::new();
        let mut i: usize = 0;
        while i < self.entries.len()
            invariant
                i <= self.entries.len(),
                out@.len() == errors_among(self@, i as nat).len(),
                forall|j: int|
                    0 <= j < out@.len() ==> (#[trigger] out@[j])@ == errors_among(
                        self@,
                        i as nat,
                    )[j],
            decreases self.entries.len() - i,
        {
            proof {
                assert(self@[i as int] == self.entries@[i as int]@);
            }
            match &self.entries[i] {
                Diagnostic::Error(e) => {
                    out.push(e);
                },
                Diagnostic::Warning(_) => {},
            }
            i += 1;
        }
        out
    }

    /// The warnings, in the order in which they were found.
    pub fn warnings(&self) -> (r: Vec<&DatamodelWarning>)
        ensures
            r@.len() == warnings_among(self@, self@.len()).len(),
            forall|i: int|
                0 <= i < r@.len() ==> (#[trigger] r@[i])@ == warnings_among(self@, self@.len())[i],
    {
        let mut out: Vec<&DatamodelWarning> = Vec::new();
        let mut i: usize = 0;
        while i < self.entries.len()
            invariant
                i <= self.entries.len(),
                out@.len() == warnings_among(self@, i as nat).len(),
                forall|j: int|
                    0 <= j < out@.len() ==> (#[trigger] out@[j])@ == warnings_among(
                        self@,
                        i as nat,
                    )[j],
            decreases self.entries.len() - i,
        {
            proof {
                assert(self@[i as int] == self.entries@[i as int]@);
            }
            match &self.entries[i] {
                Diagnostic::Warning(w) => {
                    out.push(w);
                },
                Diagnostic::Error(_) => {},
            }
            i += 1;
        }
        out
    }
}

} // verus!
