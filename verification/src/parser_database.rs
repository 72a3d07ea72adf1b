//! The semantic database: the syntax trees of a schema with the name table
//! and the tables derived from them.

use vstd::prelude::*;
use crate::ast::{FieldArity, FieldType, Identifier, SchemaAst, TypeValue};
use crate::semantic::{
    nested_jinja_list, nested_list, JinjaTypeView, SemanticTypeView,
};
use crate::top::{Top, TopKind};
use crate::types::Types;

verus! {

/// The semantic database.
#[derive(Debug)]
pub struct ParserDatabase {
    pub ast: SchemaAst,
    pub types: Types,
}

/// A class or an enum, by its position among the declarations.
pub enum NamedType {
    Class(int),
    Enum(int),
}

/// The declaration can be found by its name. Variants cannot: they are
/// named within their function.
pub open spec fn is_named(top: Top) -> bool {
    !(top is Variant)
}

/// The position of the first of the first `n` declarations that can be
/// found by name and has the name `name`.
pub open spec fn lookup(tops: Seq<Top>, name: Seq<char>, n: nat) -> Option<int>
    decreases n,
{
    if n == 0 || n > tops.len() {
        None
    } else {
        match lookup(tops, name, (n - 1) as nat) {
            Some(i) => Some(i),
            None => if is_named(tops[n - 1]) && tops[n - 1].name_spec() == name {
                Some(n - 1)
            } else {
                None
            },
        }
    }
}

/// The class or enum that `name` stands for: the first declaration of that
/// name, where it is a class or an enum.
pub open spec fn named_type(tops: Seq<Top>, name: Seq<char>) -> Option<NamedType> {
    match lookup(tops, name, tops.len()) {
        Some(i) => match tops[i] {
            Top::Class(_) => Some(NamedType::Class(i)),
            Top::Enum(_) => Some(NamedType::Enum(i)),
            _ => None,
        },
        None => None,
    }
}

/// The type that an identifier resolves to. A plain name is the class or
/// enum it stands for; a name that stands for neither, a path and an invalid
/// name resolve to the null type.
pub open spec fn raw_identifier_type(tops: Seq<Top>, idn: Identifier) -> SemanticTypeView {
    match idn {
        Identifier::ENV(_) => SemanticTypeView::Primitive(TypeValue::String),
        Identifier::Ref(_) => SemanticTypeView::Primitive(TypeValue::Null),
        Identifier::Local(x) => match named_type(tops, x@) {
            None => SemanticTypeView::Primitive(TypeValue::Null),
            Some(NamedType::Class(_)) => SemanticTypeView::Class(x@),
            Some(NamedType::Enum(_)) => SemanticTypeView::Enum(x@),
        },
        Identifier::Primitive(kind) => SemanticTypeView::Primitive(kind),
        Identifier::String(_) => SemanticTypeView::Primitive(TypeValue::String),
        Identifier::Invalid(_) => SemanticTypeView::Primitive(TypeValue::Null),
    }
}

/// `t`, made optional where the arity says so.
pub open spec fn with_arity(arity: FieldArity, t: SemanticTypeView) -> SemanticTypeView {
    if arity == FieldArity::Optional {
        SemanticTypeView::Optional(Box::new(t))
    } else {
        t
    }
}

/// The canonical type that a type of the schema resolves to.
pub open spec fn raw_type(tops: Seq<Top>, ft: FieldType) -> SemanticTypeView
    decreases ft,
{
    match ft {
        FieldType::Identifier(arity, idn) => with_arity(arity, raw_identifier_type(tops, idn)),
        FieldType::List(inner, dims) => nested_list(raw_type(tops, *inner), dims as nat),
        FieldType::Tuple(arity, items) => with_arity(
            arity,
            SemanticTypeView::Tuple(raw_types(tops, items@, items@.len())),
        ),
        FieldType::Union(arity, items) => with_arity(
            arity,
            SemanticTypeView::Union(raw_types(tops, items@, items@.len())),
        ),
        FieldType::Dictionary(key, value) => SemanticTypeView::Dictionary(
            Box::new(raw_type(tops, *key)),
            Box::new(raw_type(tops, *value)),
        ),
    }
}

/// The canonical types of the first `n` types of a list.
pub open spec fn raw_types(tops: Seq<Top>, items: Seq<FieldType>, n: nat) -> Seq<SemanticTypeView>
    decreases items, n,
{
    if n == 0 || n > items.len() {
        Seq::empty()
    } else {
        raw_types(tops, items, (n - 1) as nat).push(raw_type(tops, items[n - 1]))
    }
}

/// The type of the template engine for a primitive kind.
pub open spec fn jinja_primitive(kind: TypeValue) -> JinjaTypeView {
    match kind {
        TypeValue::String => JinjaTypeView::String,
        TypeValue::Int => JinjaTypeView::Int,
        TypeValue::Float => JinjaTypeView::Float,
        TypeValue::Bool => JinjaTypeView::Bool,
        TypeValue::Null => JinjaTypeView::Absent,
        TypeValue::Image => JinjaTypeView::Image,
    }
}

/// The type of the template engine for an identifier. A class is referred
/// to by name, an enum is a string, a name that stands for neither and a path
/// are undefined.
pub open spec fn jinja_identifier_type(tops: Seq<Top>, idn: Identifier) -> JinjaTypeView {
    match idn {
        Identifier::ENV(_) => JinjaTypeView::String,
        Identifier::Ref(_) => JinjaTypeView::Undefined,
        Identifier::Local(x) => match named_type(tops, x@) {
            None => JinjaTypeView::Undefined,
            Some(NamedType::Class(_)) => JinjaTypeView::ClassRef(x@),
            Some(NamedType::Enum(_)) => JinjaTypeView::String,
        },
        Identifier::Primitive(kind) => jinja_primitive(kind),
        Identifier::String(_) => JinjaTypeView::String,
        Identifier::Invalid(_) => JinjaTypeView::Unknown,
    }
}

/// `t`, or the absent value or `t` where the arity says so.
pub open spec fn jinja_with_arity(arity: FieldArity, t: JinjaTypeView) -> JinjaTypeView {
    if arity == FieldArity::Optional {
        JinjaTypeView::Optional(Box::new(t))
    } else {
        t
    }
}

/// The type of the template engine for a type of the schema.
pub open spec fn jinja_type(tops: Seq<Top>, ft: FieldType) -> JinjaTypeView
    decreases ft,
{
    match ft {
        FieldType::Identifier(arity, idn) => jinja_with_arity(
            arity,
            jinja_identifier_type(tops, idn),
        ),
        FieldType::List(inner, dims) => nested_jinja_list(jinja_type(tops, *inner), dims as nat),
        FieldType::Tuple(arity, items) => jinja_with_arity(
            arity,
            JinjaTypeView::Tuple(jinja_types(tops, items@, items@.len())),
        ),
        FieldType::Union(arity, items) => jinja_with_arity(
            arity,
            JinjaTypeView::Union(jinja_types(tops, items@, items@.len())),
        ),
        FieldType::Dictionary(key, value) => JinjaTypeView::Dictionary(
            Box::new(jinja_type(tops, *key)),
            Box::new(jinja_type(tops, *value)),
        ),
    }
}

/// The types of the template engine for the first `n` types of a list.
pub open spec fn jinja_types(tops: Seq<Top>, items: Seq<FieldType>, n: nat) -> Seq<JinjaTypeView>
    decreases items, n,
{
    if n == 0 || n > items.len() {
        Seq::empty()
    } else {
        jinja_types(tops, items, (n - 1) as nat).push(jinja_type(tops, items[n - 1]))
    }
}

/// The positions of the declarations of one kind among the first `n`, in
/// order.
pub open spec fn positions(tops: Seq<Top>, kind: TopKind, n: nat) -> Seq<int>
    decreases n,
{
    if n == 0 || n > tops.len() {
        Seq::empty()
    } else if tops[n - 1].kind_spec() == kind {
        positions(tops, kind, (n - 1) as nat).push(n - 1)
    } else {
        positions(tops, kind, (n - 1) as nat)
    }
}

/// The names of the declarations at the given positions.
pub open spec fn names_at(tops: Seq<Top>, at: Seq<int>) -> Seq<Seq<char>> {
    Seq::new(at.len(), |i: int| tops[at[i]].name_spec())
}

/// The names that can stand for a type: the classes, then the enums, then
/// four of the primitive kinds.
pub open spec fn valid_names(tops: Seq<Top>) -> Seq<Seq<char>> {
    names_at(tops, positions(tops, TopKind::Class, tops.len())) + names_at(
        tops,
        positions(tops, TopKind::Enum, tops.len()),
    ) + seq!["string"@, "int"@, "float"@, "bool"@]
}

/// Every position listed is a position of a declaration of the kind, the
/// positions rise, and no declaration of the kind is left out.
pub proof fn lemma_positions(tops: Seq<Top>, kind: TopKind, n: nat)
    requires
        n <= tops.len(),
    ensures
        positions(tops, kind, n).len() <= n,
        forall|i: int|
            0 <= i < positions(tops, kind, n).len() ==> {
                let p = #[trigger] positions(tops, kind, n)[i];
                0 <= p < n && tops[p].kind_spec() == kind
            },
        forall|i: int, j: int|
            0 <= i < j < positions(tops, kind, n).len() ==> positions(tops, kind, n)[i]
                < positions(tops, kind, n)[j],
        forall|p: int|
            0 <= p < n && (#[trigger] tops[p]).kind_spec() == kind ==> positions(
                tops,
                kind,
                n,
            ).contains(p),
    decreases n,
{
    if n > 0 {
        lemma_positions(tops, kind, (n - 1) as nat);
        let before = positions(tops, kind, (n - 1) as nat);
        let now = positions(tops, kind, n);
        assert forall|i: int| 0 <= i < now.len() implies {
            let p = #[trigger] now[i];
            0 <= p < n && tops[p].kind_spec() == kind
        } by {
            if i < before.len() {
                assert(now[i] == before[i]);
            }
        }
        assert forall|i: int, j: int| 0 <= i < j < now.len() implies now[i] < now[j] by {
            assert(now[i] == before[i]);
            if j < before.len() {
                assert(now[j] == before[j]);
            }
        }
        assert forall|p: int| 0 <= p < n && (#[trigger] tops[p]).kind_spec() == kind implies now.contains(
            p,
        ) by {
            if p < n - 1 {
                let w = choose|w: int| 0 <= w < before.len() && before[w] == p;
                assert(now[w] == p);
            } else {
                assert(now[now.len() - 1] == p);
            }
        }
    }
}

/// A position that `lookup` reports holds a declaration of that name, and
/// no declaration before it does.
pub proof fn lemma_lookup(tops: Seq<Top>, name: Seq<char>, n: nat)
    requires
        n <= tops.len(),
    ensures
        match lookup(tops, name, n) {
            Some(i) => {
                &&& 0 <= i < n
                &&& is_named(tops[i])
                &&& tops[i].name_spec() == name
                &&& forall|j: int|
                    0 <= j < i ==> !(is_named(#[trigger] tops[j]) && tops[j].name_spec() == name)
            },
            None => forall|j: int|
                0 <= j < n ==> !(is_named(#[trigger] tops[j]) && tops[j].name_spec() == name),
        },
    decreases n,
{
    if n > 0 {
        lemma_lookup(tops, name, (n - 1) as nat);
    }
}

/// The canonical types of a list, element by element.
pub proof fn lemma_raw_types(tops: Seq<Top>, items: Seq<FieldType>, n: nat)
    requires
        n <= items.len(),
    ensures
        raw_types(tops, items, n).len() == n,
        forall|i: int|
            0 <= i < n ==> (#[trigger] raw_types(tops, items, n)[i]) == raw_type(tops, items[i]),
    decreases n,
{
    if n > 0 {
        lemma_raw_types(tops, items, (n - 1) as nat);
    }
}

/// The template-engine types of a list, element by element.
pub proof fn lemma_jinja_types(tops: Seq<Top>, items: Seq<FieldType>, n: nat)
    requires
        n <= items.len(),
    ensures
        jinja_types(tops, items, n).len() == n,
        forall|i: int|
            0 <= i < n ==> (#[trigger] jinja_types(tops, items, n)[i]) == jinja_type(
                tops,
                items[i],
            ),
    decreases n,
{
    if n > 0 {
        lemma_jinja_types(tops, items, (n - 1) as nat);
    }
}

/// A type made of one required primitive resolves to that primitive, so
/// two such types resolve to the same type only where they name the same
/// primitive.
pub proof fn lemma_primitive_resolution_injective(tops: Seq<Top>, a: TypeValue, b: TypeValue)
    ensures
        raw_type(tops, FieldType::Identifier(FieldArity::Required, Identifier::Primitive(a)))
            == SemanticTypeView::Primitive(a),
        raw_type(tops, FieldType::Identifier(FieldArity::Required, Identifier::Primitive(a)))
            == raw_type(
            tops,
            FieldType::Identifier(FieldArity::Required, Identifier::Primitive(b)),
        ) ==> a == b,
{
}

impl ParserDatabase {
    /// A database without declarations.
    pub fn new() -> (db: ParserDatabase)
        ensures
            db.ast.tops@ == Seq::<Top>::empty(),
            db.types.is_empty(),
    {
        ParserDatabase { ast: SchemaAst { tops: Vec::new() }, types: Types::new() }
    }

    /// Adds the declarations of a syntax tree behind those already present.
    pub fn add_ast(&mut self, ast: SchemaAst)
        ensures
            final(self).ast.tops@ == old(self).ast.tops@ + ast.tops@,
            final(self).types == old(self).types,
    {
        let mut ast = ast;
        self.ast.tops.append(&mut ast.tops);
    }

    /// The syntax tree.
    pub fn ast(&self) -> (r: &SchemaAst)
        ensures
            *r == self.ast,
    {
        &self.ast
    }
}

} // verus!
