//! Canonical types: what a type of the schema resolves to.

use vstd::prelude::*;
use crate::ast::TypeValue;

verus! {

/// A resolved type. It names classes and enums by their declared names and
/// needs no further lookup.
#[derive(Debug, PartialEq)]
pub enum SemanticType {
    Primitive(TypeValue),
    Enum(String),
    Class(String),
    List(Box<SemanticType>),
    /// A dictionary from the first type to the second.
    Dictionary(Box<SemanticType>, Box<SemanticType>),
    Union(Vec<SemanticType>),
    Tuple(Vec<SemanticType>),
    Optional(Box<SemanticType>),
}

/// The mathematical content of a [`SemanticType`].
pub enum SemanticTypeView {
    Primitive(TypeValue),
    Enum(Seq<char>),
    Class(Seq<char>),
    List(Box<SemanticTypeView>),
    Dictionary(Box<SemanticTypeView>, Box<SemanticTypeView>),
    Union(Seq<SemanticTypeView>),
    Tuple(Seq<SemanticTypeView>),
    Optional(Box<SemanticTypeView>),
}

/// The contents of the first `n` types of a list.
pub open spec fn semantic_views(v: Seq<SemanticType>, n: nat) -> Seq<SemanticTypeView>
    decreases v, n,
{
    if n == 0 || n > v.len() {
        Seq::empty()
    } else {
        semantic_views(v, (n - 1) as nat).push(semantic_view(v[n - 1]))
    }
}

/// The content of a resolved type.
pub open spec fn semantic_view(t: SemanticType) -> SemanticTypeView
    decreases t,
{
    match t {
        SemanticType::Primitive(kind) => SemanticTypeView::Primitive(kind),
        SemanticType::Enum(name) => SemanticTypeView::Enum(name@),
        SemanticType::Class(name) => SemanticTypeView::Class(name@),
        SemanticType::List(inner) => SemanticTypeView::List(Box::new(semantic_view(*inner))),
        SemanticType::Dictionary(key, value) => SemanticTypeView::Dictionary(
            Box::new(semantic_view(*key)),
            Box::new(semantic_view(*value)),
        ),
        SemanticType::Union(items) => SemanticTypeView::Union(
            semantic_views(items@, items@.len()),
        ),
        SemanticType::Tuple(items) => SemanticTypeView::Tuple(
            semantic_views(items@, items@.len()),
        ),
        SemanticType::Optional(inner) => SemanticTypeView::Optional(
            Box::new(semantic_view(*inner)),
        ),
    }
}

impl View for SemanticType {
    type V = SemanticTypeView;

    open spec fn view(&self) -> SemanticTypeView {
        semantic_view(*self)
    }
}

/// `t` inside `depth` lists.
pub open spec fn nested_list(t: SemanticTypeView, depth: nat) -> SemanticTypeView
    decreases depth,
{
    if depth == 0 {
        t
    } else {
        SemanticTypeView::List(Box::new(nested_list(t, (depth - 1) as nat)))
    }
}

/// A type as the template engine sees it.
#[derive(Debug, PartialEq)]
pub enum JinjaType {
    /// A type that is not known.
    Unknown,
    /// A name that stands for nothing.
    Undefined,
    /// The type of the absent value.
    Absent,
    Int,
    Float,
    String,
    Bool,
    Image,
    List(Box<JinjaType>),
    /// A dictionary from the first type to the second.
    Dictionary(Box<JinjaType>, Box<JinjaType>),
    Tuple(Vec<JinjaType>),
    Union(Vec<JinjaType>),
    ClassRef(String),
    /// A value that is absent or of the type inside. The two are joined by
    /// the template engine; here they are held side by side.
    Optional(Box<JinjaType>),
}

/// The mathematical content of a [`JinjaType`].
pub enum JinjaTypeView {
    Unknown,
    Undefined,
    Absent,
    Int,
    Float,
    String,
    Bool,
    Image,
    List(Box<JinjaTypeView>),
    Dictionary(Box<JinjaTypeView>, Box<JinjaTypeView>),
    Tuple(Seq<JinjaTypeView>),
    Union(Seq<JinjaTypeView>),
    ClassRef(Seq<char>),
    Optional(Box<JinjaTypeView>),
}

/// The contents of the first `n` types of a list.
pub open spec fn jinja_views(v: Seq<JinjaType>, n: nat) -> Seq<JinjaTypeView>
    decreases v, n,
{
    if n == 0 || n > v.len() {
        Seq::empty()
    } else {
        jinja_views(v, (n - 1) as nat).push(jinja_view(v[n - 1]))
    }
}

/// The content of a type of the template engine.
pub open spec fn jinja_view(t: JinjaType) -> JinjaTypeView
    decreases t,
{
    match t {
        JinjaType::Unknown => JinjaTypeView::Unknown,
        JinjaType::Undefined => JinjaTypeView::Undefined,
        JinjaType::Absent => JinjaTypeView::Absent,
        JinjaType::Int => JinjaTypeView::Int,
        JinjaType::Float => JinjaTypeView::Float,
        JinjaType::String => JinjaTypeView::String,
        JinjaType::Bool => JinjaTypeView::Bool,
        JinjaType::Image => JinjaTypeView::Image,
        JinjaType::List(inner) => JinjaTypeView::List(Box::new(jinja_view(*inner))),
        JinjaType::Dictionary(key, value) => JinjaTypeView::Dictionary(
            Box::new(jinja_view(*key)),
            Box::new(jinja_view(*value)),
        ),
        JinjaType::Tuple(items) => JinjaTypeView::Tuple(jinja_views(items@, items@.len())),
        JinjaType::Union(items) => JinjaTypeView::Union(jinja_views(items@, items@.len())),
        JinjaType::ClassRef(name) => JinjaTypeView::ClassRef(name@),
        JinjaType::Optional(inner) => JinjaTypeView::Optional(Box::new(jinja_view(*inner))),
    }
}

impl View for JinjaType {
    type V = JinjaTypeView;

    open spec fn view(&self) -> JinjaTypeView {
        jinja_view(*self)
    }
}

/// `t` inside `depth` lists.
pub open spec fn nested_jinja_list(t: JinjaTypeView, depth: nat) -> JinjaTypeView
    decreases depth,
{
    if depth == 0 {
        t
    } else {
        JinjaTypeView::List(Box::new(nested_jinja_list(t, (depth - 1) as nat)))
    }
}

/// The contents of a list of types, element by element.
pub proof fn lemma_jinja_views_are_views(v: Seq<JinjaType>)
    ensures
        jinja_views(v, v.len()).len() == v.len(),
        forall|i: int| 0 <= i < v.len() ==> (#[trigger] jinja_views(v, v.len())[i]) == v[i]@,
{
    lemma_jinja_views_prefix(v, v.len());
}

proof fn lemma_jinja_views_prefix(v: Seq<JinjaType>, n: nat)
    requires
        n <= v.len(),
    ensures
        jinja_views(v, n).len() == n,
        forall|i: int| 0 <= i < n ==> (#[trigger] jinja_views(v, n)[i]) == v[i]@,
    decreases n,
{
    if n > 0 {
        lemma_jinja_views_prefix(v, (n - 1) as nat);
    }
}

/// The contents of a list of types, element by element.
pub proof fn lemma_semantic_views_are_views(v: Seq<SemanticType>)
    ensures
        semantic_views(v, v.len()).len() == v.len(),
        forall|i: int| 0 <= i < v.len() ==> (#[trigger] semantic_views(v, v.len())[i]) == v[i]@,
{
    lemma_semantic_views_prefix(v, v.len());
}

proof fn lemma_semantic_views_prefix(v: Seq<SemanticType>, n: nat)
    requires
        n <= v.len(),
    ensures
        semantic_views(v, n).len() == n,
        forall|i: int| 0 <= i < n ==> (#[trigger] semantic_views(v, n)[i]) == v[i]@,
    decreases n,
{
    if n > 0 {
        lemma_semantic_views_prefix(v, (n - 1) as nat);
    }
}

/// The contents of a list of types agree where the types agree one by one.
proof fn lemma_semantic_views_agree(a: Seq<SemanticType>, b: Seq<SemanticType>)
    requires
        a.len() == b.len(),
        forall|i: int| 0 <= i < a.len() ==> (#[trigger] a[i])@ == b[i]@,
    ensures
        semantic_views(a, a.len()) == semantic_views(b, b.len()),
{
    lemma_semantic_views_are_views(a);
    lemma_semantic_views_are_views(b);
    assert(semantic_views(a, a.len()) =~= semantic_views(b, b.len()));
}

impl SemanticType {
    /// A copy of the type.
    #[verifier::loop_isolation(false)]
    pub fn duplicate(&self) -> (r: SemanticType)
        ensures
            r@ == self@,
        decreases self,
    {
        match self {
            SemanticType::Primitive(kind) => SemanticType::Primitive(*kind),
            SemanticType::Enum(name) => SemanticType::Enum(name.clone()),
            SemanticType::Class(name) => SemanticType::Class(name.clone()),
            SemanticType::List(inner) => SemanticType::List(Box::new(inner.duplicate())),
            SemanticType::Dictionary(key, value) => SemanticType::Dictionary(
                Box::new(key.duplicate()),
                Box::new(value.duplicate()),
            ),
            SemanticType::Union(items) => {
                let mut out: Vec<SemanticType> = Vec::new();
                let mut i: usize = 0;
                while i < items.len()
                    invariant
                        i <= items.len(),
                        out@.len() == i,
                        forall|j: int| 0 <= j < i ==> (#[trigger] out@[j])@ == items@[j]@,
                    decreases items.len() - i,
                {
                    out.push(items[i].duplicate());
                    i += 1;
                }
                proof {
                    lemma_semantic_views_agree(out@, items@);
                }
                SemanticType::Union(out)
            },
            SemanticType::Tuple(items) => {
                let mut out: Vec<SemanticType> = Vec::new();
                let mut i: usize = 0;
                while i < items.len()
                    invariant
                        i <= items.len(),
                        out@.len() == i,
                        forall|j: int| 0 <= j < i ==> (#[trigger] out@[j])@ == items@[j]@,
                    decreases items.len() - i,
                {
                    out.push(items[i].duplicate());
                    i += 1;
                }
                proof {
                    lemma_semantic_views_agree(out@, items@);
                }
                SemanticType::Tuple(out)
            },
            SemanticType::Optional(inner) => SemanticType::Optional(Box::new(inner.duplicate())),
        }
    }
}

} // verus!
