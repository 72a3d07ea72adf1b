//! Source text buffers.

use std::sync::Arc;
use vstd::prelude::*;
use vstd::std_specs::cmp::PartialEqSpecImpl;
use vstd::std_specs::convert::FromSpecImpl;
use crate::text::str_eq;

verus! {

#[derive(Debug, Clone)]
enum Contents {
    Static(&'static str),
    Allocated(Arc<str>),
}

/// The characters held by a shared string slice.
pub uninterp spec fn shared_text(s: Arc<str>) -> Seq<char>;

/// Borrows the text behind the shared pointer, as `Arc::as_ref` does.
#[verifier::external_body]
fn shared_as_str(s: &Arc<str>) -> (r: &str)
    ensures
        r@ == shared_text(*s),
{
    s.as_ref()
}

/// Makes a shared string slice of the text, as `Arc::from` does.
#[verifier::external_body]
fn shared_from_str(s: &str) -> (r: Arc<str>)
    ensures
        shared_text(r) == s@,
{
    Arc::from(s)
}

/// A schema document: an immutable text buffer.
#[derive(Debug, Clone)]
pub struct SourceFile {
    contents: Contents,
}

impl View for SourceFile {
    type V = Seq<char>;

    closed spec fn view(&self) -> Seq<char> {
        match self.contents {
            Contents::Static(s) => s@,
            Contents::Allocated(s) => shared_text(s),
        }
    }
}

impl SourceFile {
    /// A document over text that lives for the whole program.
    pub fn new_static(content: &'static str) -> (file: Self)
        ensures
            file@ == content@,
    {
        Self { contents: Contents::Static(content) }
    }

    /// A document over shared, heap-allocated text.
    pub fn new_allocated(s: Arc<str>) -> (file: Self)
        ensures
            file@ == shared_text(s),
    {
        Self { contents: Contents::Allocated(s) }
    }

    /// A document over a copy of the text.
    pub fn from_text(s: &str) -> (file: Self)
        ensures
            file@ == s@,
    {
        Self::new_allocated(shared_from_str(s))
    }

    /// The text of the document.
    pub fn as_str(&self) -> (r: &str)
        ensures
            r@ == self@,
    {
        match self.contents {
            Contents::Static(s) => s,
            Contents::Allocated(ref s) => shared_as_str(s),
        }
    }
}

impl PartialEq for SourceFile {
    fn eq(&self, other: &Self) -> (r: bool) {
        str_eq(self.as_str(), other.as_str())
    }
}

impl PartialEqSpecImpl for SourceFile {
    open spec fn obeys_eq_spec() -> bool {
        true
    }

    open spec fn eq_spec(&self, other: &Self) -> bool {
        self@ == other@
    }
}

impl From<&str> for SourceFile {
    fn from(s: &str) -> (r: Self)
        ensures
            r@ == s@,
    {
        Self::from_text(s)
    }
}

impl FromSpecImpl<&str> for SourceFile {
    open spec fn obeys_from_spec() -> bool {
        false
    }

    /// Some document with the text. The conversion makes a buffer of its
    /// own, so which document it gives is not fixed; what it holds is
    /// stated by the conversion itself.
    open spec fn from_spec(s: &str) -> Self {
        choose|file: SourceFile| file@ == s@
    }
}

impl From<&String> for SourceFile {
    fn from(s: &String) -> (r: Self)
        ensures
            r@ == s@,
    {
        Self::from_text(s.as_str())
    }
}

impl FromSpecImpl<&String> for SourceFile {
    open spec fn obeys_from_spec() -> bool {
        false
    }

    open spec fn from_spec(s: &String) -> Self {
        choose|file: SourceFile| file@ == s@
    }
}

impl From<String> for SourceFile {
    fn from(s: String) -> (r: Self)
        ensures
            r@ == s@,
    {
        Self::from_text(s.as_str())
    }
}

impl FromSpecImpl<String> for SourceFile {
    open spec fn obeys_from_spec() -> bool {
        false
    }

    open spec fn from_spec(s: String) -> Self {
        choose|file: SourceFile| file@ == s@
    }
}

impl From<Arc<str>> for SourceFile {
    fn from(s: Arc<str>) -> (r: Self)
        ensures
            r@ == shared_text(s),
    {
        SourceFile { contents: Contents::Allocated(s) }
    }
}

impl FromSpecImpl<Arc<str>> for SourceFile {
    open spec fn obeys_from_spec() -> bool {
        true
    }

    closed spec fn from_spec(s: Arc<str>) -> Self {
        SourceFile { contents: Contents::Allocated(s) }
    }
}

} // verus!
