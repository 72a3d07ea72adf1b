//! The typed model of a schema: enums, classes and template strings with
//! resolved types and the decorations that were recognised.

use vstd::prelude::*;
use crate::ast::{Attribute, Expression};
use crate::diagnostics::Span;
use crate::parser_database::{positions, raw_type, ParserDatabase};
use crate::semantic::SemanticType;
use crate::text::str_eq;
use crate::top::{Top, TopKind};

verus! {

/// The decorations of an item that the model recognises.
#[derive(Debug)]
pub struct NodeAttributes<'db> {
    /// The argument of `alias`: the name at the serialization boundary.
    pub alias: Option<&'db Expression>,
    /// The argument of `description`: documentation for prompts.
    pub description: Option<&'db Expression>,
    /// `skip`: leave the item out when serializing. The inner value is the
    /// argument, where one is given.
    pub skip: Option<Option<&'db Expression>>,
    pub span: Option<Span>,
}

/// An element of the model with its decorations.
#[derive(Debug)]
pub struct Node<'db, T> {
    pub elem: T,
    pub attributes: NodeAttributes<'db>,
}

/// A value of an enum.
#[derive(Debug)]
pub struct EnumValue(pub String);

/// An enum.
#[derive(Debug)]
pub struct Enum<'db> {
    pub name: String,
    pub values: Vec<Node<'db, EnumValue>>,
}

/// A field with its resolved type.
#[derive(Debug)]
pub struct Field<'db> {
    pub name: String,
    pub field_type: Node<'db, SemanticType>,
}

/// A class.
#[derive(Debug)]
pub struct Class<'db> {
    pub name: String,
    pub static_fields: Vec<Node<'db, Field<'db>>>,
}

/// A template string.
#[derive(Debug)]
pub struct TemplateString<'db> {
    pub name: String,
    pub params: Vec<Field<'db>>,
    pub content: String,
}

/// The typed model of a schema.
#[derive(Debug)]
pub struct IntermediateRepr<'db> {
    pub enums: Vec<Node<'db, Enum<'db>>>,
    pub classes: Vec<Node<'db, Class<'db>>>,
    pub template_strings: Vec<Node<'db, TemplateString<'db>>>,
}

/// The position of the first of the first `n` decorations named `name`.
pub open spec fn attribute_position(attrs: Seq<Attribute>, name: Seq<char>, n: nat) -> Option<int>
    decreases n,
{
    if n == 0 || n > attrs.len() {
        None
    } else {
        match attribute_position(attrs, name, (n - 1) as nat) {
            Some(i) => Some(i),
            None => if attrs[n - 1].name@ == name {
                Some(n - 1)
            } else {
                None
            },
        }
    }
}

/// The first argument of the first decoration named `name`.
pub open spec fn attribute_argument(attrs: Seq<Attribute>, name: Seq<char>) -> Option<Expression> {
    match attribute_position(attrs, name, attrs.len()) {
        Some(i) => if attrs[i].arguments@.len() > 0 {
            Some(attrs[i].arguments@[0])
        } else {
            None
        },
        None => None,
    }
}

/// The decorations recognised among `attrs`, for an item that stands at `span`.
pub open spec fn recognised(attrs: Seq<Attribute>, span: Span) -> NodeAttributes<'static> {
    NodeAttributes {
        alias: match attribute_argument(attrs, "alias"@) {
            Some(e) => Some(&e),
            None => None,
        },
        description: match attribute_argument(attrs, "description"@) {
            Some(e) => Some(&e),
            None => None,
        },
        skip: match attribute_position(attrs, "skip"@, attrs.len()) {
            Some(_) => Some(
                match attribute_argument(attrs, "skip"@) {
                    Some(e) => Some(&e),
                    None => None,
                },
            ),
            None => None,
        },
        span: Some(span),
    }
}

/// A decoration found among the first ones is the decoration found among all.
proof fn lemma_attribute_position_stays(attrs: Seq<Attribute>, name: Seq<char>, n: nat, m: nat)
    requires
        n <= m <= attrs.len(),
        attribute_position(attrs, name, n) is Some,
    ensures
        attribute_position(attrs, name, m) == attribute_position(attrs, name, n),
    decreases m - n,
{
    if n < m {
        lemma_attribute_position_stays(attrs, name, n, (m - 1) as nat);
    }
}

/// The first decoration named `name`.
fn find_attribute<'db>(attrs: &'db Vec<Attribute>, name: &str) -> (r: Option<&'db Attribute>)
    ensures
        match attribute_position(attrs@, name@, attrs@.len()) {
            Some(i) => 0 <= i < attrs@.len() && r == Some(&attrs@[i]),
            None => r is None,
        },
{
    let mut i: usize = 0;
    while i < attrs.len()
        invariant
            i <= attrs.len(),
            attribute_position(attrs@, name@, i as nat) is None,
        decreases attrs.len() - i,
    {
        if str_eq(attrs[i].name.as_str(), name) {
            proof {
                assert(attribute_position(attrs@, name@, (i + 1) as nat) == Some(i as int));
                lemma_attribute_position_stays(attrs@, name@, (i + 1) as nat, attrs@.len());
            }
            return Some(&attrs[i]);
        }
        i += 1;
    }
    None
}

/// The first argument of the first decoration named `name`.
fn find_argument<'db>(attrs: &'db Vec<Attribute>, name: &str) -> (r: Option<&'db Expression>)
    ensures
        match attribute_argument(attrs@, name@) {
            Some(e) => r == Some(&e),
            None => r is None,
        },
{
    match find_attribute(attrs, name) {
        Some(a) => if a.arguments.len() > 0 {
            Some(&a.arguments[0])
        } else {
            None
        },
        None => None,
    }
}

/// The decorations recognised among `attrs`.
pub fn recognise<'db>(attrs: &'db Vec<Attribute>, span: Span) -> (r: NodeAttributes<'db>)
    ensures
        r == recognised(attrs@, span),
{
    let skip = match find_attribute(attrs, "skip") {
        Some(_) => Some(find_argument(attrs, "skip")),
        None => None,
    };
    NodeAttributes {
        alias: find_argument(attrs, "alias"),
        description: find_argument(attrs, "description"),
        skip,
        span: Some(span),
    }
}

impl<'db> NodeAttributes<'db> {
    /// The argument recorded for the decoration `key`, one of `alias`,
    /// `description` and `skip`.
    pub open spec fn get_spec(&self, key: Seq<char>) -> Option<&'db Expression> {
        if key == "alias"@ {
            self.alias
        } else if key == "description"@ {
            self.description
        } else if key == "skip"@ {
            match self.skip {
                Some(e) => e,
                None => None,
            }
        } else {
            None
        }
    }

    /// The argument recorded for the decoration `key`.
    pub fn get(&self, key: &str) -> (r: Option<&'db Expression>)
        ensures
            r == self.get_spec(key@),
    {
        if str_eq(key, "alias") {
            self.alias
        } else if str_eq(key, "description") {
            self.description
        } else if str_eq(key, "skip") {
            match self.skip {
                Some(e) => e,
                None => None,
            }
        } else {
            None
        }
    }
}

/// `e` is the model of the enum declaration `d`.
pub open spec fn is_enum_of(e: Node<'_, Enum<'_>>, d: crate::ast::Enum) -> bool {
    &&& e.elem.name@ == d.name@
    &&& e.attributes == recognised(d.attributes@, d.span)
    &&& e.elem.values@.len() == d.values@.len()
    &&& forall|i: int|
        0 <= i < d.values@.len() ==> (#[trigger] e.elem.values@[i]).elem.0@ == d.values@[i].name@
            && e.elem.values@[i].attributes == recognised(
            d.values@[i].attributes@,
            d.values@[i].span,
        )
}

/// `c` is the model of the class declaration `d` in a schema with the
/// declarations `tops`.
pub open spec fn is_class_of(c: Node<'_, Class<'_>>, d: crate::ast::Class, tops: Seq<Top>) -> bool {
    &&& c.elem.name@ == d.name@
    &&& c.attributes == recognised(d.attributes@, d.span)
    &&& c.elem.static_fields@.len() == d.fields@.len()
    &&& forall|i: int|
        0 <= i < d.fields@.len() ==> {
            let f = #[trigger] c.elem.static_fields@[i];
            &&& f.elem.name@ == d.fields@[i].name@
            &&& f.elem.field_type.elem@ == raw_type(tops, d.fields@[i].field_type)
            &&& f.attributes == recognised(d.fields@[i].attributes@, d.fields@[i].span)
        }
}

/// `t` is the model of the template string declaration `d`: its content
/// is the text of the raw block, or empty where the value is no raw block.
pub open spec fn is_template_of(
    t: Node<'_, TemplateString<'_>>,
    d: crate::ast::TemplateString,
    tops: Seq<Top>,
) -> bool {
    &&& t.elem.name@ == d.name@
    &&& t.elem.content@ == match d.value {
        Expression::RawString(raw) => raw.value@,
        _ => Seq::empty(),
    }
    &&& t.elem.params@.len() == d.params@.len()
    &&& forall|i: int|
        0 <= i < d.params@.len() ==> (#[trigger] t.elem.params@[i]).name@ == d.params@[i].name@
            && t.elem.params@[i].field_type.elem@ == raw_type(tops, d.params@[i].field_type)
}

/// `ir` is the model of the schema in `db`: its enums, classes and template
/// strings are the models of the declarations of these kinds, in order.
pub open spec fn represents(ir: IntermediateRepr<'_>, db: ParserDatabase) -> bool {
    let tops = db.ast.tops@;
    let enums = positions(tops, TopKind::Enum, tops.len());
    let classes = positions(tops, TopKind::Class, tops.len());
    let templates = positions(tops, TopKind::TemplateString, tops.len());
    &&& ir.enums@.len() == enums.len()
    &&& forall|i: int|
        0 <= i < enums.len() ==> is_enum_of(#[trigger] ir.enums@[i], tops[enums[i]]->Enum_0)
    &&& ir.classes@.len() == classes.len()
    &&& forall|i: int|
        0 <= i < classes.len() ==> is_class_of(
            #[trigger] ir.classes@[i],
            tops[classes[i]]->Class_0,
            tops,
        )
    &&& ir.template_strings@.len() == templates.len()
    &&& forall|i: int|
        0 <= i < templates.len() ==> is_template_of(
            #[trigger] ir.template_strings@[i],
            tops[templates[i]]->TemplateString_0,
            tops,
        )
}

fn enum_node<'db>(d: &'db crate::ast::Enum) -> (e: Node<'db, Enum<'db>>)
    ensures
        is_enum_of(e, *d),
{
    let mut values: Vec<Node<'db, EnumValue>> = Vec::new();
    let mut i: usize = 0;
    while i < d.values.len()
        invariant
            i <= d.values.len(),
            values@.len() == i,
            forall|j: int|
                0 <= j < i ==> (#[trigger] values@[j]).elem.0@ == d.values@[j].name@
                    && values@[j].attributes == recognised(
                    d.values@[j].attributes@,
                    d.values@[j].span,
                ),
        decreases d.values.len() - i,
    {
        let v = &d.values[i];
        values.push(
            Node { elem: EnumValue(v.name.clone()), attributes: recognise(&v.attributes, v.span) },
        );
        i += 1;
    }
    Node {
        elem: Enum { name: d.name.clone(), values },
        attributes: recognise(&d.attributes, d.span),
    }
}

fn class_node<'db>(db: &'db ParserDatabase, d: &'db crate::ast::Class) -> (c: Node<
    'db,
    Class<'db>,
>)
    ensures
        is_class_of(c, *d, db.ast.tops@),
{
    let mut fields: Vec<Node<'db, Field<'db>>> = Vec::new();
    let mut i: usize = 0;
    while i < d.fields.len()
        invariant
            i <= d.fields.len(),
            fields@.len() == i,
            forall|j: int|
                0 <= j < i ==> {
                    let f = #[trigger] fields@[j];
                    &&& f.elem.name@ == d.fields@[j].name@
                    &&& f.elem.field_type.elem@ == raw_type(db.ast.tops@, d.fields@[j].field_type)
                    &&& f.attributes == recognised(d.fields@[j].attributes@, d.fields@[j].span)
                },
        decreases d.fields.len() - i,
    {
        let f = &d.fields[i];
        fields.push(
            Node {
                elem: Field {
                    name: f.name.clone(),
                    field_type: Node {
                        elem: db.to_raw_field_type(&f.field_type),
                        attributes: NodeAttributes {
                            alias: None,
                            description: None,
                            skip: None,
                            span: None,
                        },
                    },
                },
                attributes: recognise(&f.attributes, f.span),
            },
        );
        i += 1;
    }
    Node {
        elem: Class { name: d.name.clone(), static_fields: fields },
        attributes: recognise(&d.attributes, d.span),
    }
}

fn template_node<'db>(db: &'db ParserDatabase, d: &'db crate::ast::TemplateString) -> (t: Node<
    'db,
    TemplateString<'db>,
>)
    ensures
        is_template_of(t, *d, db.ast.tops@),
{
    let mut params: Vec<Field<'db>> = Vec::new();
    let mut i: usize = 0;
    while i < d.params.len()
        invariant
            i <= d.params.len(),
            params@.len() == i,
            forall|j: int|
                0 <= j < i ==> (#[trigger] params@[j]).name@ == d.params@[j].name@
                    && params@[j].field_type.elem@ == raw_type(
                    db.ast.tops@,
                    d.params@[j].field_type,
                ),
        decreases d.params.len() - i,
    {
        let f = &d.params[i];
        params.push(
            Field {
                name: f.name.clone(),
                field_type: Node {
                    elem: db.to_raw_field_type(&f.field_type),
                    attributes: NodeAttributes {
                        alias: None,
                        description: None,
                        skip: None,
                        span: None,
                    },
                },
            },
        );
        i += 1;
    }
    let content = match &d.value {
        Expression::RawString(raw) => raw.value.clone(),
        _ => String::new(),
    };
    Node {
        elem: TemplateString { name: d.name.clone(), params, content },
        attributes: NodeAttributes { alias: None, description: None, skip: None, span: Some(d.span) },
    }
}

impl<'db> IntermediateRepr<'db> {
    /// The model of the schema in `db`.
    pub fn from_parser_database(db: &'db ParserDatabase) -> (ir: IntermediateRepr<'db>)
        ensures
            represents(ir, *db),
    {
        let ghost tops = db.ast.tops@;
        let mut enums: Vec<Node<'db, Enum<'db>>> = Vec::new();
        let mut classes: Vec<Node<'db, Class<'db>>> = Vec::new();
        let mut template_strings: Vec<Node<'db, TemplateString<'db>>> = Vec::new();
        let mut i: usize = 0;
        while i < db.ast.tops.len()
            invariant
                i <= db.ast.tops.len(),
                tops == db.ast.tops@,
                enums@.len() == positions(tops, TopKind::Enum, i as nat).len(),
                forall|j: int|
                    0 <= j < enums@.len() ==> is_enum_of(
                        #[trigger] enums@[j],
                        tops[positions(tops, TopKind::Enum, i as nat)[j]]->Enum_0,
                    ),
                classes@.len() == positions(tops, TopKind::Class, i as nat).len(),
                forall|j: int|
                    0 <= j < classes@.len() ==> is_class_of(
                        #[trigger] classes@[j],
                        tops[positions(tops, TopKind::Class, i as nat)[j]]->Class_0,
                        tops,
                    ),
                template_strings@.len() == positions(
                    tops,
                    TopKind::TemplateString,
                    i as nat,
                ).len(),
                forall|j: int|
                    0 <= j < template_strings@.len() ==> is_template_of(
                        #[trigger] template_strings@[j],
                        tops[positions(tops, TopKind::TemplateString, i as nat)[j]]->TemplateString_0,
                        tops,
                    ),
            decreases db.ast.tops.len() - i,
        {
            match &db.ast.tops[i] {
                Top::Enum(d) => {
                    enums.push(enum_node(d));
                },
                Top::Class(d) => {
                    classes.push(class_node(db, d));
                },
                Top::TemplateString(d) => {
                    template_strings.push(template_node(db, d));
                },
                _ => {},
            }
            i += 1;
        }
        IntermediateRepr { enums, classes, template_strings }
    }
}

} // verus!
