//! What the passes over the syntax tree write to.

use vstd::prelude::*;
use crate::diagnostics::{DatamodelError, DatamodelWarning, DiagnosticView, Diagnostics};
use crate::types::Types;

verus! {

/// The tables being filled and the diagnostics being collected.
#[derive(Debug)]
pub struct Context {
    pub types: Types,
    pub diagnostics: Diagnostics,
}

impl Context {
    /// Records an error.
    pub fn push_error(&mut self, error: DatamodelError)
        ensures
            final(self).diagnostics@ == old(self).diagnostics@.push(DiagnosticView::Error(error@)),
            final(self).types == old(self).types,
    {
        self.diagnostics.push_error(error);
    }

    /// Records a warning.
    pub fn push_warning(&mut self, warning: DatamodelWarning)
        ensures
            final(self).diagnostics@ == old(self).diagnostics@.push(
                DiagnosticView::Warning(warning@),
            ),
            final(self).types == old(self).types,
    {
        self.diagnostics.push_warning(warning);
    }
}

} // verus!
