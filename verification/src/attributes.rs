//! The pass that records the decorations of classes, enums and serializers.
//!
//! Three decorations are recognised: `alias`, the name at the serialization
//! boundary; `description`, documentation for prompts; `skip`, leaving the
//! item out. Decorations whose arguments are fixed by the schema are recorded
//! as static; where an argument is known only with the environment, all
//! decorations of the item are recorded as dynamic, unevaluated.

use std::collections::HashMap;
use vstd::prelude::*;
use crate::ast::{Attribute, Expression, SchemaAst};
use crate::context::Context;
use crate::repr::{attribute_argument, attribute_position, recognise};
use crate::syntax_view::ExpressionView;
use crate::top::Top;
use crate::visit::{declared, held};
use crate::types::{
    ClassAttributes, DynamicStringAttributes, EnumAttributes, SerializerAttributes,
    StaticStringAttributes, ToStringAttributes, Types, VariantAttributes,
};

verus! {

/// The item has one of the recognised decorations.
pub open spec fn is_decorated(attrs: Seq<Attribute>) -> bool {
    attribute_argument(attrs, "alias"@) is Some || attribute_argument(attrs, "description"@)
        is Some || attribute_position(attrs, "skip"@, attrs.len()) is Some
}

/// The argument is a text fixed by the schema, or there is none.
pub open spec fn is_fixed_text(e: Option<Expression>) -> bool {
    match e {
        Some(x) => x.string_text() is Some,
        None => true,
    }
}

/// The argument is a boolean literal, or there is none.
pub open spec fn is_fixed_flag(e: Option<Expression>) -> bool {
    match e {
        Some(x) => x is Bool,
        None => true,
    }
}

/// Every argument of the recognised decorations is fixed by the schema.
pub open spec fn is_fixed(attrs: Seq<Attribute>) -> bool {
    &&& is_fixed_text(attribute_argument(attrs, "alias"@))
    &&& is_fixed_text(attribute_argument(attrs, "description"@))
    &&& is_fixed_flag(attribute_argument(attrs, "skip"@))
}

/// The recorded text is the text of the argument.
pub open spec fn is_text_of(got: Option<String>, e: Option<Expression>) -> bool {
    match (got, e) {
        (Some(s), Some(x)) => x.string_text() == Some(s@),
        (None, None) => true,
        _ => false,
    }
}

/// `s` records the decorations of an item whose arguments are fixed.
pub open spec fn is_static_record(s: StaticStringAttributes, attrs: Seq<Attribute>) -> bool {
    &&& is_text_of(s.alias, attribute_argument(attrs, "alias"@))
    &&& s.skip == match attribute_position(attrs, "skip"@, attrs.len()) {
        Some(_) => Some(
            match attribute_argument(attrs, "skip"@) {
                Some(Expression::Bool(b)) => b,
                _ => true,
            },
        ),
        None => None,
    }
    &&& match attribute_argument(attrs, "description"@) {
        Some(x) => s.meta@.len() == 1 && s.meta@[0].0@ == "description"@ && x.string_text() == Some(
            s.meta@[0].1@,
        ),
        None => s.meta@.len() == 0,
    }
}

/// The decorations of an item with their arguments, unevaluated: `alias`,
/// `description` and `skip`, in this order, as far as the item has them. A
/// `skip` without argument stands with the literal `true`.
pub open spec fn dynamic_code(attrs: Seq<Attribute>) -> Seq<(Seq<char>, ExpressionView)> {
    (match attribute_argument(attrs, "alias"@) {
        Some(x) => seq![("alias"@, x@)],
        None => Seq::empty(),
    }) + (match attribute_argument(attrs, "description"@) {
        Some(x) => seq![("description"@, x@)],
        None => Seq::empty(),
    }) + (match attribute_position(attrs, "skip"@, attrs.len()) {
        Some(_) => seq![
            (
                "skip"@,
                match attribute_argument(attrs, "skip"@) {
                    Some(x) => x@,
                    None => ExpressionView::Bool(true),
                },
            ),
        ],
        None => Seq::empty(),
    })
}

/// The keys and the contents of the arguments of a dynamic record.
pub open spec fn code_views(code: Seq<(String, Expression)>) -> Seq<(Seq<char>, ExpressionView)> {
    Seq::new(code.len(), |i: int| (code[i].0@, code[i].1@))
}

/// `got` records the decorations among `attrs`: nothing where the item has
/// no recognised decoration, a static record where all arguments are fixed,
/// and else a dynamic record.
pub open spec fn is_record(got: Option<ToStringAttributes>, attrs: Seq<Attribute>) -> bool {
    if !is_decorated(attrs) {
        got is None
    } else if is_fixed(attrs) {
        got matches Some(ToStringAttributes::Static(s)) && is_static_record(s, attrs)
    } else {
        got matches Some(ToStringAttributes::Dynamic(d)) && code_views(d.code@) == dynamic_code(
            attrs,
        )
    }
}

fn fixed_text(e: Option<&Expression>) -> (r: bool)
    ensures
        r == is_fixed_text(
            match e {
                Some(x) => Some(*x),
                None => None,
            },
        ),
{
    match e {
        Some(x) => x.as_string_text().is_some(),
        None => true,
    }
}

fn text_of(e: Option<&Expression>) -> (r: Option<String>)
    requires
        is_fixed_text(
            match e {
                Some(x) => Some(*x),
                None => None,
            },
        ),
    ensures
        is_text_of(
            r,
            match e {
                Some(x) => Some(*x),
                None => None,
            },
        ),
{
    match e {
        Some(x) => x.as_string_text(),
        None => None,
    }
}

/// The record of the decorations among `attrs`.
pub fn to_string_attributes(attrs: &Vec<Attribute>) -> (r: Option<ToStringAttributes>)
    ensures
        is_record(r, attrs@),
{
    let found = recognise(attrs, crate::diagnostics::Span::new(0, 0, 0));
    let decorated = found.alias.is_some() || found.description.is_some() || found.skip.is_some();
    if !decorated {
        return None;
    }
    let skip_argument: Option<&Expression> = match found.skip {
        Some(e) => e,
        None => None,
    };
    let fixed_flag = match skip_argument {
        Some(Expression::Bool(_)) => true,
        Some(_) => false,
        None => true,
    };
    if fixed_text(found.alias) && fixed_text(found.description) && fixed_flag {
        let skip = match found.skip {
            Some(Some(Expression::Bool(b))) => Some(*b),
            Some(_) => Some(true),
            None => None,
        };
        let mut meta: Vec<(String, String)> = Vec::new();
        match text_of(found.description) {
            Some(text) => {
                meta.push(("description".to_string(), text));
            },
            None => {},
        }
        Some(
            ToStringAttributes::Static(
                StaticStringAttributes { skip, alias: text_of(found.alias), meta },
            ),
        )
    } else {
        let mut code: Vec<(String, Expression)> = Vec::new();
        match found.alias {
            Some(x) => {
                code.push(("alias".to_string(), x.duplicate()));
            },
            None => {},
        }
        match found.description {
            Some(x) => {
                code.push(("description".to_string(), x.duplicate()));
            },
            None => {},
        }
        match found.skip {
            Some(Some(x)) => {
                code.push(("skip".to_string(), x.duplicate()));
            },
            Some(None) => {
                code.push(("skip".to_string(), Expression::Bool(true)));
            },
            None => {},
        }
        proof {
            assert(code_views(code@) =~= dynamic_code(attrs@));
        }
        Some(ToStringAttributes::Dynamic(DynamicStringAttributes { code }))
    }
}

/// The table holds the record of each of the first `n` items, by position,
/// and no entry for an item without a record.
pub open spec fn is_record_table(
    table: Map<u32, ToStringAttributes>,
    items: Seq<Seq<Attribute>>,
    n: nat,
) -> bool {
    &&& forall|i: int|
        0 <= i < n && i < items.len() && i <= u32::MAX ==> is_record(
            if table.contains_key(i as u32) {
                Some(table[i as u32])
            } else {
                None
            },
            #[trigger] items[i],
        )
    &&& forall|k: u32| #[trigger] table.contains_key(k) ==> k < n && k < items.len()
}

/// The records of the items, by position.
fn record_table(items: &Vec<&Vec<Attribute>>) -> (r: HashMap<u32, ToStringAttributes>)
    ensures
        is_record_table(r@, Seq::new(items@.len(), |i: int| items@[i]@), items@.len()),
{
    let ghost all = Seq::new(items@.len(), |i: int| items@[i]@);
    let mut table: HashMap<u32, ToStringAttributes> = HashMap::new();
    let mut i: usize = 0;
    while i < items.len() && i <= 0xffff_ffff
        invariant
            i <= items.len(),
            all == Seq::new(items@.len(), |j: int| items@[j]@),
            is_record_table(table@, all, i as nat),
        decreases items.len() - i,
    {
        let ghost before = table@;
        proof {
            assert(all[i as int] == items@[i as int]@);
        }
        match to_string_attributes(items[i]) {
            Some(record) => {
                table.insert(i as u32, record);
            },
            None => {},
        }
        proof {
            assert forall|j: int|
                0 <= j < i + 1 && j < all.len() && j <= u32::MAX implies is_record(
                if table@.contains_key(j as u32) {
                    Some(table@[j as u32])
                } else {
                    None
                },
                #[trigger] all[j],
            ) by {
                if j < i {
                    assert(is_record(
                        if before.contains_key(j as u32) {
                            Some(before[j as u32])
                        } else {
                            None
                        },
                        all[j],
                    ));
                }
            }
        }
        i += 1;
    }
    table
}

/// The decorations of the fields of a class, in order.
pub open spec fn field_decorations(c: crate::ast::Class) -> Seq<Seq<Attribute>> {
    Seq::new(c.fields@.len(), |i: int| c.fields@[i].attributes@)
}

/// The decorations of the values of an enum, in order.
pub open spec fn value_decorations(e: crate::ast::Enum) -> Seq<Seq<Attribute>> {
    Seq::new(e.values@.len(), |i: int| e.values@[i].attributes@)
}

/// The decorations of the fields of a serializer, in order.
pub open spec fn serializer_decorations(s: crate::ast::Serializer) -> Seq<Seq<Attribute>> {
    Seq::new(s.fields@.len(), |i: int| s.fields@[i].attributes@)
}

/// `a` records the decorations of the class and of its fields.
pub open spec fn is_class_record(a: ClassAttributes, c: crate::ast::Class) -> bool {
    &&& is_record(a.serilizer, c.attributes@)
    &&& is_record_table(a.field_serilizers@, field_decorations(c), c.fields@.len())
}

/// `a` records the decorations of the enum and of its values.
pub open spec fn is_enum_record(a: EnumAttributes, e: crate::ast::Enum) -> bool {
    &&& is_record(a.serilizer, e.attributes@)
    &&& is_record_table(a.value_serilizers@, value_decorations(e), e.values@.len())
}

/// `a` records the decorations of the serializer and of its fields.
pub open spec fn is_serializer_record(a: SerializerAttributes, s: crate::ast::Serializer) -> bool {
    &&& is_record(a.serilizer, s.attributes@)
    &&& is_record_table(a.field_serilizers@, serializer_decorations(s), s.fields@.len())
}

/// The table holds the records of the first `n` serializers of the
/// variant, by position.
pub open spec fn serializers_recorded(
    table: Map<u32, SerializerAttributes>,
    serializers: Seq<crate::ast::Serializer>,
    n: nat,
) -> bool {
    &&& forall|i: int|
        0 <= i < n && i < serializers.len() && i <= u32::MAX ==> is_serializer_entry(
            if table.contains_key(i as u32) {
                Some(table[i as u32])
            } else {
                None
            },
            #[trigger] serializers[i],
        )
    &&& forall|k: u32| #[trigger] table.contains_key(k) ==> k < n && k < serializers.len()
}

/// `got` is the record of the serializer.
pub open spec fn is_serializer_entry(got: Option<SerializerAttributes>, s: crate::ast::Serializer) -> bool {
    got matches Some(a) && is_serializer_record(a, s)
}

/// `a` records the decorations of the serializers of the variant, by position.
pub open spec fn is_variant_record(a: VariantAttributes, v: crate::ast::Variant) -> bool {
    serializers_recorded(a.serializers@, v.serializers@, v.serializers@.len())
}

/// The entry for the decorations of classes at a position: for a class
/// its record, else what was there before.
pub open spec fn class_record_entry(
    top: Option<Top>,
    before: Option<ClassAttributes>,
    after: Option<ClassAttributes>,
) -> bool {
    match top {
        Some(Top::Class(c)) => after matches Some(a) && is_class_record(a, c),
        _ => after == before,
    }
}

/// The entry for the decorations of enums at a position: for an enum its
/// record, else what was there before.
pub open spec fn enum_record_entry(
    top: Option<Top>,
    before: Option<EnumAttributes>,
    after: Option<EnumAttributes>,
) -> bool {
    match top {
        Some(Top::Enum(e)) => after matches Some(a) && is_enum_record(a, e),
        _ => after == before,
    }
}

/// The entry for the decorations of variants at a position: for a variant
/// its record, else what was there before.
pub open spec fn variant_record_entry(
    top: Option<Top>,
    before: Option<VariantAttributes>,
    after: Option<VariantAttributes>,
) -> bool {
    match top {
        Some(Top::Variant(v)) => after matches Some(a) && is_variant_record(a, v),
        _ => after == before,
    }
}

/// At the key `k` the tables `b` hold the record of the decorations of the
/// declaration `top`, and what the tables `a` hold where it has none.
pub open spec fn recorded_at(top: Option<Top>, a: Types, b: Types, k: usize) -> bool {
    &&& class_record_entry(top, held(a.class_attributes@, k), held(b.class_attributes@, k))
    &&& enum_record_entry(top, held(a.enum_attributes@, k), held(b.enum_attributes@, k))
    &&& variant_record_entry(top, held(a.variant_attributes@, k), held(b.variant_attributes@, k))
}

/// The tables `b` are the tables `a` with the records of the decorations
/// of the first `n` declarations put in, each at its position: of each
/// class, each enum and each variant. The other tables are as they were.
pub open spec fn records_filled(a: Types, b: Types, tops: Seq<Top>, n: nat) -> bool {
    &&& same_but_records(b, a)
    &&& forall|k: usize| #[trigger] recorded_at(declared(tops, k, n), a, b, k)
}

/// At the key `k` the tables hold the record of the decorations of the
/// declaration `top`, and nothing where it has none.
pub open spec fn records_at(top: Option<Top>, types: Types, k: usize) -> bool {
    &&& class_record_entry(top, None, held(types.class_attributes@, k))
    &&& enum_record_entry(top, None, held(types.enum_attributes@, k))
    &&& variant_record_entry(top, None, held(types.variant_attributes@, k))
}

/// The tables hold the records of the decorations of the first `n`
/// declarations, of each class, each enum and each variant, and nothing else.
pub open spec fn records_hold(types: Types, tops: Seq<Top>, n: nat) -> bool {
    forall|k: usize| #[trigger] records_at(declared(tops, k, n), types, k)
}

/// Tables without records that were then filled hold the records of the
/// declarations and nothing else.
pub proof fn lemma_records_from_empty(a: Types, b: Types, tops: Seq<Top>, n: nat)
    requires
        a.enum_attributes@ == Map::<usize, EnumAttributes>::empty(),
        a.class_attributes@ == Map::<usize, ClassAttributes>::empty(),
        a.variant_attributes@ == Map::<usize, VariantAttributes>::empty(),
        records_filled(a, b, tops, n),
    ensures
        records_hold(b, tops, n),
{
    assert forall|k: usize| #[trigger] records_at(declared(tops, k, n), b, k) by {
        assert(recorded_at(declared(tops, k, n), a, b, k));
    }
}

/// Every table but those of the decorations is the same.
pub open spec fn same_but_records(a: Types, b: Types) -> bool {
    &&& a.class_dependencies == b.class_dependencies
    &&& a.variant_properties == b.variant_properties
    &&& a.retry_policies == b.retry_policies
    &&& a.printers == b.printers
    &&& a.test_cases == b.test_cases
    &&& a.template_strings == b.template_strings
}

fn class_record(c: &crate::ast::Class) -> (r: ClassAttributes)
    ensures
        is_class_record(r, *c),
{
    let mut items: Vec<&Vec<Attribute>> = Vec::new();
    let mut i: usize = 0;
    while i < c.fields.len()
        invariant
            i <= c.fields.len(),
            items@.len() == i,
            forall|j: int| 0 <= j < i ==> (#[trigger] items@[j])@ == c.fields@[j].attributes@,
        decreases c.fields.len() - i,
    {
        items.push(&c.fields[i].attributes);
        i += 1;
    }
    proof {
        assert(Seq::new(items@.len(), |j: int| items@[j]@) =~= field_decorations(*c));
    }
    ClassAttributes {
        field_serilizers: record_table(&items),
        serilizer: to_string_attributes(&c.attributes),
    }
}

fn enum_record(e: &crate::ast::Enum) -> (r: EnumAttributes)
    ensures
        is_enum_record(r, *e),
{
    let mut items: Vec<&Vec<Attribute>> = Vec::new();
    let mut i: usize = 0;
    while i < e.values.len()
        invariant
            i <= e.values.len(),
            items@.len() == i,
            forall|j: int| 0 <= j < i ==> (#[trigger] items@[j])@ == e.values@[j].attributes@,
        decreases e.values.len() - i,
    {
        items.push(&e.values[i].attributes);
        i += 1;
    }
    proof {
        assert(Seq::new(items@.len(), |j: int| items@[j]@) =~= value_decorations(*e));
    }
    EnumAttributes {
        value_serilizers: record_table(&items),
        serilizer: to_string_attributes(&e.attributes),
    }
}

fn serializer_record(s: &crate::ast::Serializer) -> (r: SerializerAttributes)
    ensures
        is_serializer_record(r, *s),
{
    let mut items: Vec<&Vec<Attribute>> = Vec::new();
    let mut i: usize = 0;
    while i < s.fields.len()
        invariant
            i <= s.fields.len(),
            items@.len() == i,
            forall|j: int| 0 <= j < i ==> (#[trigger] items@[j])@ == s.fields@[j].attributes@,
        decreases s.fields.len() - i,
    {
        items.push(&s.fields[i].attributes);
        i += 1;
    }
    proof {
        assert(Seq::new(items@.len(), |j: int| items@[j]@) =~= serializer_decorations(*s));
    }
    SerializerAttributes {
        field_serilizers: record_table(&items),
        serilizer: to_string_attributes(&s.attributes),
    }
}

fn variant_record(v: &crate::ast::Variant) -> (r: VariantAttributes)
    ensures
        is_variant_record(r, *v),
{
    let ghost all = v.serializers@;
    let mut serializers: HashMap<u32, SerializerAttributes> = HashMap::new();
    let mut i: usize = 0;
    while i < v.serializers.len() && i <= 0xffff_ffff
        invariant
            i <= v.serializers.len(),
            all == v.serializers@,
            serializers_recorded(serializers@, all, i as nat),
        decreases v.serializers.len() - i,
    {
        let ghost before = serializers@;
        let record = serializer_record(&v.serializers[i]);
        serializers.insert(i as u32, record);
        proof {
            assert forall|j: int|
                0 <= j < i + 1 && j < all.len() && j <= u32::MAX implies is_serializer_entry(
                if serializers@.contains_key(j as u32) {
                    Some(serializers@[j as u32])
                } else {
                    None
                },
                #[trigger] all[j],
            ) by {
                if j < i {
                    assert(is_serializer_entry(
                        if before.contains_key(j as u32) {
                            Some(before[j as u32])
                        } else {
                            None
                        },
                        all[j],
                    ));
                }
            }
        }
        i += 1;
    }
    VariantAttributes { serializers }
}

/// Records the decorations of every class, enum and variant of the syntax
/// tree.
pub fn resolve_attributes(ctx: &mut Context, ast: &SchemaAst)
    ensures
        final(ctx).diagnostics == old(ctx).diagnostics,
        records_filled(old(ctx).types, final(ctx).types, ast.tops@, ast.tops@.len()),
{
    let ghost first = ctx.types;
    let mut i: usize = 0;
    while i < ast.tops.len()
        invariant
            i <= ast.tops.len(),
            ctx.diagnostics == old(ctx).diagnostics,
            records_filled(first, ctx.types, ast.tops@, i as nat),
        decreases ast.tops.len() - i,
    {
        let ghost before = ctx.types;
        match &ast.tops[i] {
            Top::Class(c) => {
                ctx.types.class_attributes.insert(i, class_record(c));
            },
            Top::Enum(e) => {
                ctx.types.enum_attributes.insert(i, enum_record(e));
            },
            Top::Variant(v) => {
                ctx.types.variant_attributes.insert(i, variant_record(v));
            },
            _ => {},
        }
        proof {
            assert forall|k: usize| #[trigger]
                recorded_at(declared(ast.tops@, k, (i + 1) as nat), first, ctx.types, k) by {
                assert(recorded_at(declared(ast.tops@, k, i as nat), first, before, k));
            }
        }
        i += 1;
    }
}

} // verus!
