//! The mathematical content of expressions, and copies that keep it.

use vstd::prelude::*;
use crate::ast::{Expression, Identifier, RawString, TypeValue};
use crate::diagnostics::Span;
use crate::text::{duplicate_strings, string_views};

verus! {

/// The mathematical content of an [`Identifier`].
pub enum IdentifierView {
    ENV(Seq<char>),
    Ref(Seq<Seq<char>>),
    Local(Seq<char>),
    Primitive(TypeValue),
    String(Seq<char>),
    Invalid(Seq<char>),
}

/// The mathematical content of a [`RawString`].
pub struct RawStringView {
    pub value: Seq<char>,
    pub language: Option<Seq<char>>,
    pub span: Span,
}

/// The mathematical content of an [`Expression`].
pub enum ExpressionView {
    Identifier(IdentifierView),
    Bool(bool),
    Numeric(Seq<char>),
    String(Seq<char>),
    RawString(RawStringView),
    List(Seq<ExpressionView>),
    Mapping(Seq<(ExpressionView, ExpressionView)>),
}

impl View for Identifier {
    type V = IdentifierView;

    open spec fn view(&self) -> IdentifierView {
        match self {
            Identifier::ENV(s) => IdentifierView::ENV(s@),
            Identifier::Ref(path) => IdentifierView::Ref(string_views(path@)),
            Identifier::Local(s) => IdentifierView::Local(s@),
            Identifier::Primitive(kind) => IdentifierView::Primitive(*kind),
            Identifier::String(s) => IdentifierView::String(s@),
            Identifier::Invalid(s) => IdentifierView::Invalid(s@),
        }
    }
}

impl View for RawString {
    type V = RawStringView;

    open spec fn view(&self) -> RawStringView {
        RawStringView {
            value: self.value@,
            language: match self.language {
                Some(l) => Some(l@),
                None => None,
            },
            span: self.span,
        }
    }
}

/// The content of an expression.
pub open spec fn expression_view(e: Expression) -> ExpressionView
    decreases e,
{
    match e {
        Expression::Identifier(idn) => ExpressionView::Identifier(idn@),
        Expression::Bool(b) => ExpressionView::Bool(b),
        Expression::Numeric(text) => ExpressionView::Numeric(text@),
        Expression::String(text) => ExpressionView::String(text@),
        Expression::RawString(raw) => ExpressionView::RawString(raw@),
        Expression::List(items) => ExpressionView::List(expression_views(items@, items@.len())),
        Expression::Mapping(pairs) => ExpressionView::Mapping(pair_views(pairs@, pairs@.len())),
    }
}

/// The contents of the first `n` expressions of a list.
pub open spec fn expression_views(items: Seq<Expression>, n: nat) -> Seq<ExpressionView>
    decreases items, n,
{
    if n == 0 || n > items.len() {
        Seq::empty()
    } else {
        expression_views(items, (n - 1) as nat).push(expression_view(items[n - 1]))
    }
}

/// The contents of the first `n` pairs of a mapping.
pub open spec fn pair_views(pairs: Seq<(Expression, Expression)>, n: nat) -> Seq<
    (ExpressionView, ExpressionView),
>
    decreases pairs, n,
{
    if n == 0 || n > pairs.len() {
        Seq::empty()
    } else {
        pair_views(pairs, (n - 1) as nat).push(
            (expression_view(pairs[n - 1].0), expression_view(pairs[n - 1].1)),
        )
    }
}

impl View for Expression {
    type V = ExpressionView;

    open spec fn view(&self) -> ExpressionView {
        expression_view(*self)
    }
}

/// The contents of a list of expressions, element by element.
pub proof fn lemma_expression_views(items: Seq<Expression>, n: nat)
    requires
        n <= items.len(),
    ensures
        expression_views(items, n).len() == n,
        forall|i: int| 0 <= i < n ==> (#[trigger] expression_views(items, n)[i]) == items[i]@,
    decreases n,
{
    if n > 0 {
        lemma_expression_views(items, (n - 1) as nat);
    }
}

/// The contents of the pairs of a mapping, pair by pair.
pub proof fn lemma_pair_views(pairs: Seq<(Expression, Expression)>, n: nat)
    requires
        n <= pairs.len(),
    ensures
        pair_views(pairs, n).len() == n,
        forall|i: int|
            0 <= i < n ==> (#[trigger] pair_views(pairs, n)[i]) == (pairs[i].0@, pairs[i].1@),
    decreases n,
{
    if n > 0 {
        lemma_pair_views(pairs, (n - 1) as nat);
    }
}

impl Identifier {
    /// A copy of the identifier.
    pub fn duplicate(&self) -> (r: Identifier)
        ensures
            r@ == self@,
    {
        match self {
            Identifier::ENV(s) => Identifier::ENV(s.clone()),
            Identifier::Ref(path) => Identifier::Ref(duplicate_strings(path)),
            Identifier::Local(s) => Identifier::Local(s.clone()),
            Identifier::Primitive(kind) => Identifier::Primitive(*kind),
            Identifier::String(s) => Identifier::String(s.clone()),
            Identifier::Invalid(s) => Identifier::Invalid(s.clone()),
        }
    }
}

impl Expression {
    /// A copy of the expression.
    #[verifier::loop_isolation(false)]
    pub fn duplicate(&self) -> (r: Expression)
        ensures
            r@ == self@,
        decreases self,
    {
        match self {
            Expression::Identifier(idn) => Expression::Identifier(idn.duplicate()),
            Expression::Bool(b) => Expression::Bool(*b),
            Expression::Numeric(text) => Expression::Numeric(text.clone()),
            Expression::String(text) => Expression::String(text.clone()),
            Expression::RawString(raw) => {
                let copy = raw.duplicate();
                assert(copy@ == raw@);
                Expression::RawString(copy)
            },
            Expression::List(items) => {
                let mut out: Vec<Expression> = Vec::new();
                let mut i: usize = 0;
                while i < items.len()
                    invariant
                        i <= items.len(),
                        out@.len() == i,
                        forall|j: int| 0 <= j < i ==> (#[trigger] out@[j])@ == items@[j]@,
                    decreases items.len() - i,
                {
                    out.push(items[i].duplicate());
                    i += 1;
                }
                proof {
                    lemma_expression_views(out@, out@.len());
                    lemma_expression_views(items@, items@.len());
                    assert(expression_views(out@, out@.len()) =~= expression_views(
                        items@,
                        items@.len(),
                    ));
                }
                Expression::List(out)
            },
            Expression::Mapping(pairs) => {
                let mut out: Vec<(Expression, Expression)> = Vec::new();
                let mut i: usize = 0;
                while i < pairs.len()
                    invariant
                        i <= pairs.len(),
                        out@.len() == i,
                        forall|j: int|
                            0 <= j < i ==> (#[trigger] out@[j]).0@ == pairs@[j].0@ && out@[j].1@
                                == pairs@[j].1@,
                    decreases pairs.len() - i,
                {
                    let key = pairs[i].0.duplicate();
                    let value = pairs[i].1.duplicate();
                    out.push((key, value));
                    i += 1;
                }
                proof {
                    lemma_pair_views(out@, out@.len());
                    lemma_pair_views(pairs@, pairs@.len());
                    assert(pair_views(out@, out@.len()) =~= pair_views(pairs@, pairs@.len()));
                }
                Expression::Mapping(out)
            },
        }
    }
}

} // verus!
