//! Reading an expression as a value of a given kind, with a diagnostic
//! where it is none.

use vstd::prelude::*;
use crate::ast::{Expression, Identifier, RawString};
use crate::diagnostics::{
    DatamodelError, DiagnosticView, Diagnostics, ErrorKind, ErrorView, Span,
};
use crate::text::{append_chars, from_chars, to_chars};

verus! {

/// The entry for a value of the wrong kind.
pub open spec fn type_mismatch(expected: Seq<char>, received: Seq<char>, span: Span) -> DiagnosticView {
    DiagnosticView::Error(
        ErrorView {
            kind: ErrorKind::TypeMismatch,
            message: "Expected a "@ + expected + " value, but received "@ + received + " value"@,
            names: Seq::empty(),
            span,
        },
    )
}

/// An error without names.
pub open spec fn plain_error(kind: ErrorKind, message: Seq<char>, span: Span) -> DiagnosticView {
    DiagnosticView::Error(ErrorView { kind, message, names: Seq::empty(), span })
}

impl DatamodelError {
    /// The error for a value of the wrong kind.
    pub fn new_type_mismatch_error(expected: &str, received: &str, span: Span) -> (e:
        DatamodelError)
        ensures
            DiagnosticView::Error(e@) == type_mismatch(expected@, received@, span),
    {
        let mut out = to_chars("Expected a ");
        append_chars(&mut out, &to_chars(expected));
        append_chars(&mut out, &to_chars(" value, but received "));
        append_chars(&mut out, &to_chars(received));
        append_chars(&mut out, &to_chars(" value"));
        DatamodelError::new(ErrorKind::TypeMismatch, from_chars(&out), span)
    }
}

impl Expression {
    /// The word for the kind of the value.
    pub open spec fn kind_word(&self) -> Seq<char> {
        match self {
            Expression::Identifier(_) => "identifier"@,
            Expression::Bool(_) => "boolean"@,
            Expression::Numeric(_) => "numeric"@,
            Expression::String(_) => "string"@,
            Expression::RawString(_) => "raw string"@,
            Expression::List(_) => "array"@,
            Expression::Mapping(_) => "map"@,
        }
    }

    /// The word for the kind of the value.
    pub fn describe_value_type(&self) -> (r: &'static str)
        ensures
            r@ == self.kind_word(),
    {
        match self {
            Expression::Identifier(_) => "identifier",
            Expression::Bool(_) => "boolean",
            Expression::Numeric(_) => "numeric",
            Expression::String(_) => "string",
            Expression::RawString(_) => "raw string",
            Expression::List(_) => "array",
            Expression::Mapping(_) => "map",
        }
    }

    /// The text of the expression where it can be read as a string without
    /// the environment: a string, a raw string, or a name that is neither a
    /// variable of the environment nor invalid.
    pub open spec fn string_text(&self) -> Option<Seq<char>> {
        match self {
            Expression::String(s) => Some(s@),
            Expression::RawString(r) => Some(r.value@),
            Expression::Identifier(idn) => if idn is ENV || idn is Invalid {
                None
            } else {
                Some(idn.name_spec())
            },
            _ => None,
        }
    }

    /// The text of the expression where it can be read as a string.
    pub fn as_string_text(&self) -> (r: Option<String>)
        ensures
            match self.string_text() {
                Some(t) => r matches Some(s) && s@ == t,
                None => r is None,
            },
    {
        match self {
            Expression::String(s) => Some(s.clone()),
            Expression::RawString(r) => Some(r.value.clone()),
            Expression::Identifier(idn) => match idn {
                Identifier::ENV(_) => None,
                Identifier::Invalid(_) => None,
                _ => Some(idn.name()),
            },
            _ => None,
        }
    }
}

/// The expression as a string. Where it is none, a type mismatch at `span`
/// is recorded.
pub fn string_with_span(expr: &Expression, span: Span, diagnostics: &mut Diagnostics) -> (r: Option<
    String,
>)
    ensures
        match expr.string_text() {
            Some(t) => r matches Some(s) && s@ == t && final(diagnostics)@ == old(diagnostics)@,
            None => r is None && final(diagnostics)@ == old(diagnostics)@.push(
                type_mismatch("string"@, expr.kind_word(), span),
            ),
        },
{
    match expr.as_string_text() {
        Some(s) => Some(s),
        None => {
            diagnostics.push_error(
                DatamodelError::new_type_mismatch_error("string", expr.describe_value_type(), span),
            );
            None
        },
    }
}

/// The expression as a raw string block. Where it is none, a type mismatch
/// at `span` is recorded.
pub fn raw_string<'a>(expr: &'a Expression, span: Span, diagnostics: &mut Diagnostics) -> (r:
    Option<&'a RawString>)
    ensures
        match *expr {
            Expression::RawString(raw) => r == Some(&raw) && final(diagnostics)@ == old(
                diagnostics,
            )@,
            _ => r is None && final(diagnostics)@ == old(diagnostics)@.push(
                type_mismatch("raw string"@, expr.kind_word(), span),
            ),
        },
{
    match expr {
        Expression::RawString(raw) => Some(raw),
        _ => {
            diagnostics.push_error(
                DatamodelError::new_type_mismatch_error(
                    "raw string",
                    expr.describe_value_type(),
                    span,
                ),
            );
            None
        },
    }
}

} // verus!
