//! The pass that fills the tables of the database from the syntax tree.

use indexmap::IndexMap;
use vstd::prelude::*;
use crate::arguments::{
    argument_entries, argument_views, arguments_insert, arguments_new, lemma_put_argument,
};
use crate::value::put;
use crate::ast::{
    Class, ClassId, ConfigBlock, ConfigBlockProperty, Configuration, ConfigurationId, Expression,
    Field, FieldType, Identifier, SchemaAst, TemplateString, TemplateStringId, VariantConfigId,
};
use crate::coerce::{plain_error, string_with_span, type_mismatch};
use crate::context::Context;
use crate::diagnostics::{DatamodelError, DiagnosticView, ErrorKind, Span};
use crate::numeric::{parse_i64, parsed_i64};
use crate::prompt::VariantProperties;
use crate::syntax_view::ExpressionView;
use crate::text::{concat3, str_eq, string_views, to_chars};
use crate::top::Top;
use crate::types::{
    ContantDelayStrategy, Printer, PrinterType, RetryPolicy, RetryPolicyStrategy,
    TemplateStringProperties, TestCase, Types,
};
use crate::variant::{binds, chosen, properties_of, variant_entries, visit_variant};

verus! {

/// The names of the types that a type refers to, in the order they are
/// written: every plain name and every path, at any depth.
pub open spec fn flat_names(ft: FieldType) -> Seq<Seq<char>>
    decreases ft,
{
    match ft {
        FieldType::Identifier(_, idn) => if idn.is_valid_type_spec() && !(idn is Primitive) {
            seq![idn.name_spec()]
        } else {
            Seq::empty()
        },
        FieldType::List(inner, _) => flat_names(*inner),
        FieldType::Tuple(_, items) => flat_names_all(items@, items@.len()),
        FieldType::Union(_, items) => flat_names_all(items@, items@.len()),
        FieldType::Dictionary(key, value) => flat_names(*key) + flat_names(*value),
    }
}

/// The names that the first `n` types of a list refer to.
pub open spec fn flat_names_all(items: Seq<FieldType>, n: nat) -> Seq<Seq<char>>
    decreases items, n,
{
    if n == 0 || n > items.len() {
        Seq::empty()
    } else {
        flat_names_all(items, (n - 1) as nat) + flat_names(items[n - 1])
    }
}

/// The names that the first `n` fields of a class refer to.
pub open spec fn class_names(fields: Seq<Field>, n: nat) -> Seq<Seq<char>>
    decreases n,
{
    if n == 0 || n > fields.len() {
        Seq::empty()
    } else {
        class_names(fields, (n - 1) as nat) + flat_names(fields[n - 1].field_type)
    }
}

/// The names of a list, each once, in the order of their first occurrence.
pub open spec fn distinct(names: Seq<Seq<char>>) -> Seq<Seq<char>>
    decreases names.len(),
{
    if names.len() == 0 {
        Seq::empty()
    } else if distinct(names.drop_last()).contains(names.last()) {
        distinct(names.drop_last())
    } else {
        distinct(names.drop_last()).push(names.last())
    }
}

/// The types that a class depends on: the names that its fields refer to.
pub open spec fn dependencies(class: Class) -> Seq<Seq<char>> {
    distinct(class_names(class.fields@, class.fields@.len()))
}

/// A type inside a list, and an optional type, refer to the same names as
/// the type itself: a dependency counts whatever it is wrapped in.
pub proof fn lemma_wrappers_keep_names(inner: FieldType, dims: u32, idn: Identifier)
    ensures
        flat_names(FieldType::List(Box::new(inner), dims)) == flat_names(inner),
        flat_names(FieldType::Identifier(crate::ast::FieldArity::Optional, idn)) == flat_names(
            FieldType::Identifier(crate::ast::FieldArity::Required, idn),
        ),
{
}

/// The distinct names of a list are the names of the list, and none of
/// them stands twice.
pub proof fn lemma_distinct_same_names(names: Seq<Seq<char>>)
    ensures
        forall|name: Seq<char>| #[trigger]
            distinct(names).contains(name) <==> names.contains(name),
        distinct(names).no_duplicates(),
    decreases names.len(),
{
    if names.len() > 0 {
        let head = names.drop_last();
        let last = names.last();
        let d = distinct(head);
        let now = distinct(names);
        lemma_distinct_same_names(head);
        assert forall|name: Seq<char>| #[trigger] now.contains(name) <==> names.contains(
            name,
        ) by {
            assert(d.contains(name) <==> head.contains(name));
            if names.contains(name) {
                let i = choose|i: int| 0 <= i < names.len() && names[i] == name;
                if i < head.len() {
                    assert(head[i] == name);
                    assert(head.contains(name));
                    let j = choose|j: int| 0 <= j < d.len() && d[j] == name;
                    assert(now[j] == name);
                } else {
                    assert(name == last);
                    if d.contains(last) {
                        assert(now == d);
                    } else {
                        assert(now[d.len() as int] == name);
                    }
                }
                assert(now.contains(name));
            }
            if now.contains(name) {
                let j = choose|j: int| 0 <= j < now.len() && now[j] == name;
                if j < d.len() {
                    assert(d[j] == name);
                    assert(d.contains(name));
                    assert(head.contains(name));
                    let i = choose|i: int| 0 <= i < head.len() && head[i] == name;
                    assert(names[i] == name);
                } else {
                    assert(names[names.len() - 1] == name);
                }
                assert(names.contains(name));
            }
        }
        assert forall|i: int, j: int| 0 <= i < now.len() && 0 <= j < now.len() && i != j implies now[i]
            != now[j] by {
            if i < d.len() && j < d.len() {
                assert(d[i] != d[j]);
            } else if i < d.len() {
                assert(d[i] == now[i]);
                assert(d.contains(now[i]));
            } else if j < d.len() {
                assert(d[j] == now[j]);
                assert(d.contains(now[j]));
            }
        }
    }
}

/// Appends the names that a type refers to.
#[verifier::loop_isolation(false)]
pub(crate) fn collect_names(ft: &FieldType, out: &mut Vec<String>)
    ensures
        string_views(final(out)@) == string_views(old(out)@) + flat_names(*ft),
    decreases ft,
{
    let ghost before = string_views(out@);
    match ft {
        FieldType::Identifier(_, idn) => {
            let counts = idn.is_valid_type() && match idn {
                Identifier::Primitive(_) => false,
                _ => true,
            };
            if counts {
                out.push(idn.name());
            }
            proof {
                assert(string_views(out@) =~= before + flat_names(*ft));
            }
        },
        FieldType::List(inner, _) => {
            collect_names(inner, out);
        },
        FieldType::Tuple(_, items) => {
            collect_names_all(items, out, Ghost(*ft));
        },
        FieldType::Union(_, items) => {
            collect_names_all(items, out, Ghost(*ft));
        },
        FieldType::Dictionary(key, value) => {
            collect_names(key, out);
            collect_names(value, out);
            proof {
                assert(string_views(out@) =~= before + flat_names(*ft));
            }
        },
    }
}

/// Appends the names that the parts of `parent` refer to.
#[verifier::loop_isolation(false)]
fn collect_names_all(items: &Vec<FieldType>, out: &mut Vec<String>, Ghost(parent): Ghost<FieldType>)
    requires
        crate::walkers::has_parts(parent, *items),
    ensures
        string_views(final(out)@) == string_views(old(out)@) + flat_names_all(
            items@,
            items@.len(),
        ),
    decreases parent, 0nat,
{
    let ghost before = string_views(out@);
    let mut i: usize = 0;
    proof {
        assert(string_views(out@) =~= before + flat_names_all(items@, 0));
    }
    while i < items.len()
        invariant
            i <= items.len(),
            string_views(out@) == before + flat_names_all(items@, i as nat),
        decreases items.len() - i,
    {
        collect_names(&items[i], out);
        proof {
            assert(string_views(out@) =~= before + flat_names_all(items@, (i + 1) as nat));
        }
        i += 1;
    }
}

/// Whether `name` is among `names`.
pub(crate) fn holds_name(names: &Vec<String>, name: &String) -> (r: bool)
    ensures
        r == string_views(names@).contains(name@),
{
    let mut i: usize = 0;
    while i < names.len()
        invariant
            i <= names.len(),
            forall|j: int| 0 <= j < i ==> string_views(names@)[j] != name@,
        decreases names.len() - i,
    {
        if names[i] == *name {
            assert(string_views(names@)[i as int] == name@);
            return true;
        }
        i += 1;
    }
    false
}

/// `b` is `a` with the dependencies of one class put in; every other table
/// is the same.
pub open spec fn dependencies_added(a: Types, b: Types, key: usize, names: Seq<Seq<char>>) -> bool {
    &&& b.class_dependencies@.dom() == a.class_dependencies@.dom().insert(key)
    &&& string_views(b.class_dependencies@[key]@) == names
    &&& forall|k: usize|
        k != key && a.class_dependencies@.contains_key(k) ==> b.class_dependencies@[k]
            == a.class_dependencies@[k]
    &&& b.enum_attributes == a.enum_attributes
    &&& b.class_attributes == a.class_attributes
    &&& b.variant_attributes == a.variant_attributes
    &&& b.variant_properties == a.variant_properties
    &&& b.retry_policies == a.retry_policies
    &&& b.printers == a.printers
    &&& b.test_cases == a.test_cases
    &&& b.template_strings == a.template_strings
}

/// Records the types that a class depends on.
pub fn visit_class(class_id: ClassId, class: &Class, ctx: &mut Context)
    ensures
        final(ctx).diagnostics == old(ctx).diagnostics,
        dependencies_added(old(ctx).types, final(ctx).types, class_id.0, dependencies(*class)),
{
    let mut names: Vec<String> = Vec::new();
    let mut i: usize = 0;
    proof {
        assert(string_views(names@) =~= class_names(class.fields@, 0));
    }
    while i < class.fields.len()
        invariant
            i <= class.fields.len(),
            string_views(names@) == class_names(class.fields@, i as nat),
        decreases class.fields.len() - i,
    {
        collect_names(&class.fields[i].field_type, &mut names);
        i += 1;
    }
    let mut used: Vec<String> = Vec::new();
    let mut k: usize = 0;
    proof {
        assert(string_views(names@).take(0) =~= Seq::empty());
        assert(string_views(used@) =~= distinct(string_views(names@).take(0)));
    }
    while k < names.len()
        invariant
            k <= names.len(),
            string_views(used@) == distinct(string_views(names@).take(k as int)),
        decreases names.len() - k,
    {
        proof {
            let all = string_views(names@);
            assert(all.take(k + 1).drop_last() =~= all.take(k as int));
            assert(all.take(k + 1).last() == names@[k as int]@);
        }
        if !holds_name(&used, &names[k]) {
            let ghost before = string_views(used@);
            used.push(names[k].clone());
            proof {
                assert(string_views(used@) =~= before.push(names@[k as int]@));
            }
        }
        k += 1;
    }
    proof {
        assert(string_views(names@).take(names@.len() as int) =~= string_views(names@));
    }
    let ghost table = ctx.types.class_dependencies@;
    ctx.types.class_dependencies.insert(class_id.0, used);
    proof {
        assert(ctx.types.class_dependencies@.dom() =~= table.dom().insert(class_id.0));
    }
}

/// What is recorded for a template string: an error where its value is no
/// raw string block.
pub open spec fn template_entries(t: TemplateString) -> Seq<DiagnosticView> {
    match t.value {
        Expression::RawString(_) => Seq::empty(),
        _ => seq![type_mismatch("raw string"@, t.value.kind_word(), t.span)],
    }
}

/// The tables `b` are the tables `a` with the text of the template string
/// at `key` put in.
pub open spec fn template_added(a: Types, b: Types, key: usize, text: Seq<char>) -> bool {
    &&& b.template_strings@.dom() == a.template_strings@.dom().insert(key)
    &&& b.template_strings@[key].template@ == text
    &&& forall|k: usize|
        k != key && a.template_strings@.contains_key(k) ==> b.template_strings@[k]
            == a.template_strings@[k]
    &&& b.enum_attributes == a.enum_attributes
    &&& b.class_attributes == a.class_attributes
    &&& b.class_dependencies == a.class_dependencies
    &&& b.variant_attributes == a.variant_attributes
    &&& b.variant_properties == a.variant_properties
    &&& b.retry_policies == a.retry_policies
    &&& b.printers == a.printers
    &&& b.test_cases == a.test_cases
}

/// Records the text of a template string.
pub fn visit_template_string(
    idx: TemplateStringId,
    template_string: &TemplateString,
    ctx: &mut Context,
)
    ensures
        final(ctx).diagnostics@ == old(ctx).diagnostics@ + template_entries(*template_string),
        match template_string.value {
            Expression::RawString(raw) => template_added(
                old(ctx).types,
                final(ctx).types,
                idx.0,
                raw.value@,
            ),
            _ => final(ctx).types == old(ctx).types,
        },
{
    let ghost before = ctx.diagnostics@;
    match crate::coerce::raw_string(
        &template_string.value,
        template_string.span,
        &mut ctx.diagnostics,
    ) {
        Some(raw) => {
            let ghost table = ctx.types.template_strings@;
            ctx.types.template_strings.insert(
                idx.0,
                TemplateStringProperties { template: raw.value.clone() },
            );
            proof {
                assert(ctx.types.template_strings@.dom() =~= table.dom().insert(idx.0));
                assert(ctx.diagnostics@ =~= before + template_entries(*template_string));
            }
        },
        None => {
            proof {
                assert(ctx.diagnostics@ =~= before + template_entries(*template_string));
            }
        },
    }
}

/// Enums bring nothing into the tables.
pub fn visit_enum(_enm: &crate::ast::Enum, _ctx: &mut Context)
    ensures
        *final(_ctx) == *old(_ctx),
{
}

/// The position of the field that gives the value for `word`.
fn find_chosen(fields: &Vec<ConfigBlockProperty>, word: &str) -> (r: Option<usize>)
    ensures
        match r {
            Some(c) => chosen(fields@, word@, fields@.len()) == Some(c as int) && c < fields@.len()
                && fields@[c as int].value is Some,
            None => chosen(fields@, word@, fields@.len()) is None,
        },
{
    let mut found: Option<usize> = None;
    let mut i: usize = 0;
    while i < fields.len()
        invariant
            i <= fields.len(),
            match found {
                Some(c) => chosen(fields@, word@, i as nat) == Some(c as int) && c < i
                    && fields@[c as int].value is Some,
                None => chosen(fields@, word@, i as nat) is None,
            },
        decreases fields.len() - i,
    {
        if str_eq(fields[i].name.as_str(), word) && fields[i].value.is_some() {
            found = Some(i);
        }
        i += 1;
    }
    found
}

/// The text of the field `word` of a block.
pub open spec fn string_field(block: ConfigBlock, word: Seq<char>) -> Option<(Seq<char>, Span)> {
    match chosen(block.fields@, word, block.fields@.len()) {
        Some(i) => match block.fields@[i].value->0.string_text() {
            Some(t) => Some((t, block.fields@[i].value_span)),
            None => None,
        },
        None => None,
    }
}

/// What is recorded when the field `word` of a block is read as a string:
/// an error where it is missing or no string.
pub open spec fn string_field_entries(block: ConfigBlock, word: Seq<char>) -> Seq<DiagnosticView> {
    match chosen(block.fields@, word, block.fields@.len()) {
        Some(i) => match block.fields@[i].value->0.string_text() {
            Some(_) => Seq::empty(),
            None => seq![
                type_mismatch(
                    "string"@,
                    block.fields@[i].value->0.kind_word(),
                    block.fields@[i].value_span,
                ),
            ],
        },
        None => seq![
            plain_error(ErrorKind::MissingField, "Missing `"@ + word + "` field"@, block.span),
        ],
    }
}

/// Reads the field `word` of a block as a string.
fn read_string_field(block: &ConfigBlock, word: &str, ctx: &mut Context) -> (r: Option<
    (String, Span),
>)
    ensures
        final(ctx).diagnostics@ == old(ctx).diagnostics@ + string_field_entries(*block, word@),
        final(ctx).types == old(ctx).types,
        match string_field(*block, word@) {
            Some(f) => r matches Some(got) && got.0@ == f.0 && got.1 == f.1,
            None => r is None,
        },
{
    let ghost before = ctx.diagnostics@;
    match find_chosen(&block.fields, word) {
        Some(c) => {
            let field = &block.fields[c];
            match &field.value {
                Some(e) => {
                    let text = string_with_span(e, field.value_span, &mut ctx.diagnostics);
                    proof {
                        assert(ctx.diagnostics@ =~= before + string_field_entries(*block, word@));
                    }
                    match text {
                        Some(s) => Some((s, field.value_span)),
                        None => None,
                    }
                },
                None => None,
            }
        },
        None => {
            ctx.push_error(
                DatamodelError::new(
                    ErrorKind::MissingField,
                    concat3("Missing `", word, "` field"),
                    block.span,
                ),
            );
            proof {
                assert(ctx.diagnostics@ =~= before + string_field_entries(*block, word@));
            }
            None
        },
    }
}

/// The number that an expression denotes, where it is a number that fits
/// into 32 bits without sign.
pub open spec fn small_number(e: Expression) -> Option<u32> {
    match e {
        Expression::Numeric(text) => match parsed_i64(text@) {
            Some(n) => if 0 <= n <= u32::MAX {
                Some(n as u32)
            } else {
                None
            },
            None => None,
        },
        _ => None,
    }
}

/// The number of the field `word` of a block.
pub open spec fn number_field(block: ConfigBlock, word: Seq<char>) -> Option<u32> {
    match chosen(block.fields@, word, block.fields@.len()) {
        Some(i) => small_number(block.fields@[i].value->0),
        None => None,
    }
}

/// What is recorded when the field `word` of a block is read as a number:
/// an error where it is present and no such number.
pub open spec fn number_field_entries(block: ConfigBlock, word: Seq<char>) -> Seq<DiagnosticView> {
    match chosen(block.fields@, word, block.fields@.len()) {
        Some(i) => match small_number(block.fields@[i].value->0) {
            Some(_) => Seq::empty(),
            None => seq![
                type_mismatch(
                    "int"@,
                    block.fields@[i].value->0.kind_word(),
                    block.fields@[i].value_span,
                ),
            ],
        },
        None => Seq::empty(),
    }
}

/// Reads the field `word` of a block as a number.
fn read_number_field(block: &ConfigBlock, word: &str, ctx: &mut Context) -> (r: Option<u32>)
    ensures
        final(ctx).diagnostics@ == old(ctx).diagnostics@ + number_field_entries(*block, word@),
        final(ctx).types == old(ctx).types,
        r == number_field(*block, word@),
{
    let ghost before = ctx.diagnostics@;
    let number = match find_chosen(&block.fields, word) {
        Some(c) => {
            let field = &block.fields[c];
            let parsed = match &field.value {
                Some(Expression::Numeric(text)) => match parse_i64(&to_chars(text.as_str())) {
                    Some(n) => if 0 <= n && n <= 0xffff_ffff {
                        Some(n as u32)
                    } else {
                        None
                    },
                    None => None,
                },
                _ => None,
            };
            match &field.value {
                Some(e) => if parsed.is_none() {
                    ctx.push_error(
                        DatamodelError::new_type_mismatch_error(
                            "int",
                            e.describe_value_type(),
                            field.value_span,
                        ),
                    );
                },
                None => {},
            }
            parsed
        },
        None => None,
    };
    proof {
        assert(ctx.diagnostics@ =~= before + number_field_entries(*block, word@));
    }
    number
}

/// The delay between retries where the block names none, in milliseconds.
pub open spec fn default_delay() -> u32 {
    200
}

/// What is recorded for the first `n` functions of a test case: an error
/// for each that is no string.
pub open spec fn functions_entries(items: Seq<Expression>, span: Span, n: nat) -> Seq<DiagnosticView>
    decreases n,
{
    if n == 0 || n > items.len() {
        Seq::empty()
    } else if items[n - 1].string_text() is Some {
        functions_entries(items, span, (n - 1) as nat)
    } else {
        functions_entries(items, span, (n - 1) as nat).push(
            type_mismatch("string"@, items[n - 1].kind_word(), span),
        )
    }
}

/// The names among the first `n` functions of a test case, in order.
pub open spec fn function_names(items: Seq<Expression>, n: nat) -> Seq<Seq<char>>
    decreases n,
{
    if n == 0 || n > items.len() {
        Seq::empty()
    } else {
        match items[n - 1].string_text() {
            Some(name) => function_names(items, (n - 1) as nat).push(name),
            None => function_names(items, (n - 1) as nat),
        }
    }
}

/// What is recorded for the first `n` arguments of a test case: an error
/// for each whose name is no string.
pub open spec fn args_entries(pairs: Seq<(Expression, Expression)>, span: Span, n: nat) -> Seq<
    DiagnosticView,
>
    decreases n,
{
    if n == 0 || n > pairs.len() {
        Seq::empty()
    } else if pairs[n - 1].0.string_text() is Some {
        args_entries(pairs, span, (n - 1) as nat)
    } else {
        args_entries(pairs, span, (n - 1) as nat).push(
            type_mismatch("string"@, pairs[n - 1].0.kind_word(), span),
        )
    }
}

/// The arguments with a name among the first `n` arguments of a test
/// case: each name with the place `span` and the content of the value, in
/// the order in which the names are first written. Where a name is written
/// again, the later value takes the place of the earlier one.
pub open spec fn named_args(pairs: Seq<(Expression, Expression)>, span: Span, n: nat) -> Seq<
    (Seq<char>, (Span, ExpressionView)),
>
    decreases n,
{
    if n == 0 || n > pairs.len() {
        Seq::empty()
    } else {
        match pairs[n - 1].0.string_text() {
            Some(name) => put(
                named_args(pairs, span, (n - 1) as nat),
                name,
                (span, pairs[n - 1].1@),
            ),
            None => named_args(pairs, span, (n - 1) as nat),
        }
    }
}

/// What is recorded for the functions of a test case.
pub open spec fn functions_part(block: ConfigBlock) -> Seq<DiagnosticView> {
    match chosen(block.fields@, "functions"@, block.fields@.len()) {
        Some(i) => match block.fields@[i].value->0 {
            Expression::List(items) => functions_entries(
                items@,
                block.fields@[i].value_span,
                items@.len(),
            ),
            other => seq![type_mismatch("array"@, other.kind_word(), block.fields@[i].value_span)],
        },
        None => seq![
            plain_error(ErrorKind::MissingField, "Missing `functions` field"@, block.span),
        ],
    }
}

/// What is recorded for the arguments of a test case.
pub open spec fn args_part(block: ConfigBlock) -> Seq<DiagnosticView> {
    match chosen(block.fields@, "args"@, block.fields@.len()) {
        Some(i) => match block.fields@[i].value->0 {
            Expression::Mapping(pairs) => args_entries(
                pairs@,
                block.fields@[i].value_span,
                pairs@.len(),
            ),
            other => seq![type_mismatch("map"@, other.kind_word(), block.fields@[i].value_span)],
        },
        None => Seq::empty(),
    }
}

/// What is recorded for a test case. It needs `functions`, a list of
/// names, and may give `args`, a mapping from names to values.
pub open spec fn test_entries(block: ConfigBlock) -> Seq<DiagnosticView> {
    functions_part(block) + args_part(block)
}

/// The names of the functions that a test case runs.
pub open spec fn test_functions(block: ConfigBlock) -> Seq<Seq<char>> {
    match chosen(block.fields@, "functions"@, block.fields@.len()) {
        Some(i) => match block.fields@[i].value->0 {
            Expression::List(items) => function_names(items@, items@.len()),
            _ => Seq::empty(),
        },
        None => Seq::empty(),
    }
}

/// The arguments that a test case passes.
pub open spec fn test_args(block: ConfigBlock) -> Seq<(Seq<char>, (Span, ExpressionView))> {
    match chosen(block.fields@, "args"@, block.fields@.len()) {
        Some(i) => match block.fields@[i].value->0 {
            Expression::Mapping(pairs) => named_args(
                pairs@,
                block.fields@[i].value_span,
                pairs@.len(),
            ),
            _ => Seq::empty(),
        },
        None => Seq::empty(),
    }
}

/// Where the value of the field `word` of a block stands; the place of the
/// block itself where it has no such field.
pub open spec fn field_place(block: ConfigBlock, word: Seq<char>) -> Span {
    match chosen(block.fields@, word, block.fields@.len()) {
        Some(i) => block.fields@[i].value_span,
        None => block.span,
    }
}

/// The test case that a block declares: the functions in the order in
/// which they are written, and the arguments by name, each with the place of
/// the field that it stands in.
pub open spec fn is_test_of(t: TestCase, block: ConfigBlock) -> bool {
    &&& t.functions@.len() == test_functions(block).len()
    &&& forall|i: int|
        0 <= i < t.functions@.len() ==> (#[trigger] t.functions@[i]).0@ == test_functions(block)[i]
            && t.functions@[i].1 == field_place(block, "functions"@)
    &&& argument_views(argument_entries(t.args)) == test_args(block)
    &&& t.args_field_span == field_place(block, "args"@)
}

/// Reads the functions of a test case.
fn read_functions(block: &ConfigBlock, ctx: &mut Context) -> (r: Vec<(String, Span)>)
    ensures
        final(ctx).types == old(ctx).types,
        final(ctx).diagnostics@ == old(ctx).diagnostics@ + functions_part(*block),
        r@.len() == test_functions(*block).len(),
        forall|i: int|
            0 <= i < r@.len() ==> (#[trigger] r@[i]).0@ == test_functions(*block)[i] && r@[i].1
                == field_place(*block, "functions"@),
{
    let ghost before = ctx.diagnostics@;
    let mut out: Vec<(String, Span)> = Vec::new();
    match find_chosen(&block.fields, "functions") {
        Some(c) => {
            let field = &block.fields[c];
            match &field.value {
                Some(Expression::List(items)) => {
                    let mut i: usize = 0;
                    proof {
                        assert(ctx.diagnostics@ =~= before + functions_entries(
                            items@,
                            field.value_span,
                            0,
                        ));
                    }
                    while i < items.len()
                        invariant
                            i <= items.len(),
                            ctx.types == old(ctx).types,
                            ctx.diagnostics@ == before + functions_entries(
                                items@,
                                field.value_span,
                                i as nat,
                            ),
                            out@.len() == function_names(items@, i as nat).len(),
                            forall|j: int|
                                0 <= j < out@.len() ==> (#[trigger] out@[j]).0@ == function_names(
                                    items@,
                                    i as nat,
                                )[j] && out@[j].1 == field.value_span,
                        decreases items.len() - i,
                    {
                        match string_with_span(&items[i], field.value_span, &mut ctx.diagnostics) {
                            Some(name) => {
                                out.push((name, field.value_span));
                            },
                            None => {},
                        }
                        proof {
                            assert(ctx.diagnostics@ =~= before + functions_entries(
                                items@,
                                field.value_span,
                                (i + 1) as nat,
                            ));
                        }
                        i += 1;
                    }
                },
                Some(other) => {
                    ctx.push_error(
                        DatamodelError::new_type_mismatch_error(
                            "array",
                            other.describe_value_type(),
                            field.value_span,
                        ),
                    );
                },
                None => {},
            }
        },
        None => {
            ctx.push_error(
                DatamodelError::new(
                    ErrorKind::MissingField,
                    "Missing `functions` field".to_string(),
                    block.span,
                ),
            );
        },
    }
    proof {
        assert(ctx.diagnostics@ =~= before + functions_part(*block));
    }
    out
}

/// Reads the arguments of a test case.
fn read_args(block: &ConfigBlock, ctx: &mut Context) -> (r: (
    IndexMap<String, (Span, Expression)>,
    Span,
))
    ensures
        final(ctx).types == old(ctx).types,
        final(ctx).diagnostics@ == old(ctx).diagnostics@ + args_part(*block),
        argument_views(argument_entries(r.0)) == test_args(*block),
        r.1 == field_place(*block, "args"@),
{
    let ghost before = ctx.diagnostics@;
    let mut out = arguments_new();
    proof {
        assert(argument_views(argument_entries(out)) =~= Seq::empty());
    }
    let mut span = block.span;
    match find_chosen(&block.fields, "args") {
        Some(c) => {
            let field = &block.fields[c];
            span = field.value_span;
            match &field.value {
                Some(Expression::Mapping(pairs)) => {
                    let mut i: usize = 0;
                    proof {
                        assert(ctx.diagnostics@ =~= before + args_entries(
                            pairs@,
                            field.value_span,
                            0,
                        ));
                    }
                    while i < pairs.len()
                        invariant
                            i <= pairs.len(),
                            ctx.types == old(ctx).types,
                            ctx.diagnostics@ == before + args_entries(
                                pairs@,
                                field.value_span,
                                i as nat,
                            ),
                            argument_views(argument_entries(out)) == named_args(
                                pairs@,
                                field.value_span,
                                i as nat,
                            ),
                        decreases pairs.len() - i,
                    {
                        match string_with_span(&pairs[i].0, field.value_span, &mut ctx.diagnostics) {
                            Some(name) => {
                                let value = pairs[i].1.duplicate();
                                proof {
                                    lemma_put_argument(
                                        argument_entries(out),
                                        name@,
                                        field.value_span,
                                        value,
                                    );
                                }
                                arguments_insert(&mut out, name, (field.value_span, value));
                            },
                            None => {},
                        }
                        proof {
                            assert(ctx.diagnostics@ =~= before + args_entries(
                                pairs@,
                                field.value_span,
                                (i + 1) as nat,
                            ));
                        }
                        i += 1;
                    }
                },
                Some(other) => {
                    ctx.push_error(
                        DatamodelError::new_type_mismatch_error(
                            "map",
                            other.describe_value_type(),
                            field.value_span,
                        ),
                    );
                },
                None => {},
            }
        },
        None => {},
    }
    proof {
        assert(ctx.diagnostics@ =~= before + args_part(*block));
    }
    (out, span)
}

/// What is recorded for a configuration block. A printer needs a
/// `template` that is a string. A retry policy needs `max_retries`, a number,
/// and may give `delay_ms`, a number. A test case needs `functions`, a list
/// of names, and may give `args`, a mapping from names to values.
pub open spec fn config_entries(config: Configuration) -> Seq<DiagnosticView> {
    match config {
        Configuration::Printer(block) => string_field_entries(block, "template"@),
        Configuration::RetryPolicy(block) => (if chosen(
            block.fields@,
            "max_retries"@,
            block.fields@.len(),
        ) is None {
            seq![
                plain_error(
                    ErrorKind::MissingField,
                    "Missing `max_retries` field"@,
                    block.span,
                ),
            ]
        } else {
            number_field_entries(block, "max_retries"@)
        }) + number_field_entries(block, "delay_ms"@),
        Configuration::TestCase(block) => test_entries(block),
    }
}

/// The printer that a block declares: its template, for enums where the
/// keyword carries the argument `enum`.
pub open spec fn is_printer_of(p: PrinterType, block: ConfigBlock) -> bool {
    &&& string_field(block, "template"@) matches Some(f)
    &&& p.printer().template.0@ == f.0
    &&& p.printer().template.1 == f.1
    &&& p is Enum <==> (block.argument matches Some(a) && a@ == "enum"@)
}

/// The retry policy that a block declares: as many retries as it says, with
/// the delay it names or else the default delay, constant from try to try.
pub open spec fn is_policy_of(p: RetryPolicy, block: ConfigBlock) -> bool {
    &&& number_field(block, "max_retries"@) matches Some(n)
    &&& p.max_retries == n
    &&& p.strategy matches RetryPolicyStrategy::ConstantDelay(s)
    &&& s.delay_ms == match number_field(block, "delay_ms"@) {
        Some(d) => d,
        None => default_delay(),
    }
    &&& p.options is None
}

/// The table `b` is the table `a` with an entry for `key` put in.
pub open spec fn entry_added<V>(a: Map<usize, V>, b: Map<usize, V>, key: usize) -> bool {
    &&& b.dom() == a.dom().insert(key)
    &&& forall|k: usize| k != key && a.contains_key(k) ==> b[k] == a[k]
}

/// The tables `b` are the tables `a` with what the configuration block at
/// `key` declares put in. A printer is put in where its template could be
/// read, a retry policy where its number of retries could be read, a test
/// case always.
pub open spec fn config_recorded(a: Types, b: Types, key: usize, config: Configuration) -> bool {
    &&& b.enum_attributes == a.enum_attributes
    &&& b.class_attributes == a.class_attributes
    &&& b.class_dependencies == a.class_dependencies
    &&& b.variant_attributes == a.variant_attributes
    &&& b.variant_properties == a.variant_properties
    &&& b.template_strings == a.template_strings
    &&& match config {
        Configuration::Printer(block) => {
            &&& b.retry_policies == a.retry_policies
            &&& b.test_cases == a.test_cases
            &&& if string_field(block, "template"@) is Some {
                entry_added(a.printers@, b.printers@, key) && is_printer_of(b.printers@[key], block)
            } else {
                b.printers == a.printers
            }
        },
        Configuration::RetryPolicy(block) => {
            &&& b.printers == a.printers
            &&& b.test_cases == a.test_cases
            &&& if number_field(block, "max_retries"@) is Some {
                entry_added(a.retry_policies@, b.retry_policies@, key) && is_policy_of(
                    b.retry_policies@[key],
                    block,
                )
            } else {
                b.retry_policies == a.retry_policies
            }
        },
        Configuration::TestCase(block) => {
            &&& b.printers == a.printers
            &&& b.retry_policies == a.retry_policies
            &&& entry_added(a.test_cases@, b.test_cases@, key)
            &&& is_test_of(b.test_cases@[key], block)
        },
    }
}

/// Records what a configuration block declares.
pub fn visit_config(idx: ConfigurationId, config: &Configuration, ctx: &mut Context)
    ensures
        final(ctx).diagnostics@ == old(ctx).diagnostics@ + config_entries(*config),
        config_recorded(old(ctx).types, final(ctx).types, idx.0, *config),
{
    let ghost before = ctx.diagnostics@;
    match config {
        Configuration::RetryPolicy(retry) => {
            let present = find_chosen(&retry.fields, "max_retries").is_some();
            if !present {
                ctx.push_error(
                    DatamodelError::new(
                        ErrorKind::MissingField,
                        "Missing `max_retries` field".to_string(),
                        retry.span,
                    ),
                );
            }
            let max_retries = read_number_field(retry, "max_retries", ctx);
            let delay = read_number_field(retry, "delay_ms", ctx);
            proof {
                assert(ctx.diagnostics@ =~= before + config_entries(*config));
            }
            match max_retries {
                Some(n) => {
                    let delay_ms = match delay {
                        Some(d) => d,
                        None => 200,
                    };
                    ctx.types.retry_policies.insert(
                        idx.0,
                        RetryPolicy {
                            max_retries: n,
                            strategy: RetryPolicyStrategy::ConstantDelay(
                                ContantDelayStrategy { delay_ms },
                            ),
                            options: None,
                        },
                    );
                },
                None => {},
            }
        },
        Configuration::Printer(printer) => {
            let template = read_string_field(printer, "template", ctx);
            match template {
                Some(t) => {
                    let for_enum = match &printer.argument {
                        Some(a) => str_eq(a.as_str(), "enum"),
                        None => false,
                    };
                    let p = Printer { template: t };
                    ctx.types.printers.insert(
                        idx.0,
                        if for_enum {
                            PrinterType::Enum(p)
                        } else {
                            PrinterType::Type(p)
                        },
                    );
                },
                None => {},
            }
        },
        Configuration::TestCase(test_case) => {
            let functions = read_functions(test_case, ctx);
            let args = read_args(test_case, ctx);
            proof {
                assert(ctx.diagnostics@ =~= before + config_entries(*config));
            }
            ctx.types.test_cases.insert(
                idx.0,
                TestCase { functions, args: args.0, args_field_span: args.1 },
            );
        },
    }
}

/// What is recorded for a declaration.
pub open spec fn top_entries(top: Top) -> Seq<DiagnosticView> {
    match top {
        Top::Enum(_) => Seq::empty(),
        Top::Class(_) => Seq::empty(),
        Top::TemplateString(t) => template_entries(t),
        Top::Variant(v) => variant_entries(v),
        Top::Config(c) => config_entries(c),
    }
}

/// What is recorded for the first `n` declarations.
pub open spec fn tops_entries(tops: Seq<Top>, n: nat) -> Seq<DiagnosticView>
    decreases n,
{
    if n == 0 || n > tops.len() {
        Seq::empty()
    } else {
        tops_entries(tops, (n - 1) as nat) + top_entries(tops[n - 1])
    }
}

/// What a table holds at a key, if anything.
pub open spec fn held<V>(table: Map<usize, V>, k: usize) -> Option<V> {
    if table.contains_key(k) {
        Some(table[k])
    } else {
        None
    }
}

/// The declaration at position `k`, where that is one of the first `n`.
pub open spec fn declared(tops: Seq<Top>, k: usize, n: nat) -> Option<Top> {
    if k < n && k < tops.len() {
        Some(tops[k as int])
    } else {
        None
    }
}

/// The entry for dependencies at a position: for a class the names it
/// depends on, else what was there before.
pub open spec fn dependencies_entry(
    top: Option<Top>,
    before: Option<Vec<String>>,
    after: Option<Vec<String>>,
) -> bool {
    match top {
        Some(Top::Class(c)) => after matches Some(names) && string_views(names@) == dependencies(c),
        _ => after == before,
    }
}

/// The entry for variant properties at a position: for a variant that
/// binds its properties what it binds, else what was there before.
pub open spec fn properties_entry(
    top: Option<Top>,
    before: Option<VariantProperties>,
    after: Option<VariantProperties>,
) -> bool {
    match top {
        Some(Top::Variant(v)) => if binds(v) {
            after matches Some(p) && properties_of(p, v)
        } else {
            after == before
        },
        _ => after == before,
    }
}

/// The entry for template strings at a position: for a template string
/// whose value is a raw string block its text, else what was there before.
pub open spec fn template_entry(
    top: Option<Top>,
    before: Option<TemplateStringProperties>,
    after: Option<TemplateStringProperties>,
) -> bool {
    match top {
        Some(Top::TemplateString(t)) => match t.value {
            Expression::RawString(raw) => after matches Some(p) && p.template@ == raw.value@,
            _ => after == before,
        },
        _ => after == before,
    }
}

/// The entry for printers at a position: for a printer whose template
/// could be read that printer, else what was there before.
pub open spec fn printer_entry(
    top: Option<Top>,
    before: Option<PrinterType>,
    after: Option<PrinterType>,
) -> bool {
    match top {
        Some(Top::Config(Configuration::Printer(block))) => if string_field(block, "template"@)
            is Some {
            after matches Some(p) && is_printer_of(p, block)
        } else {
            after == before
        },
        _ => after == before,
    }
}

/// The entry for retry policies at a position: for a retry policy whose
/// number of retries could be read that policy, else what was there before.
pub open spec fn policy_entry(
    top: Option<Top>,
    before: Option<RetryPolicy>,
    after: Option<RetryPolicy>,
) -> bool {
    match top {
        Some(Top::Config(Configuration::RetryPolicy(block))) => if number_field(
            block,
            "max_retries"@,
        ) is Some {
            after matches Some(p) && is_policy_of(p, block)
        } else {
            after == before
        },
        _ => after == before,
    }
}

/// The entry for test cases at a position: for a test case what it
/// declares, else what was there before.
pub open spec fn test_entry(
    top: Option<Top>,
    before: Option<TestCase>,
    after: Option<TestCase>,
) -> bool {
    match top {
        Some(Top::Config(Configuration::TestCase(block))) => after matches Some(t) && is_test_of(
            t,
            block,
        ),
        _ => after == before,
    }
}

/// At the key `k` the tables `b` hold what the declaration `top` brings,
/// and what the tables `a` hold where it brings nothing.
pub open spec fn filled_at(top: Option<Top>, a: Types, b: Types, k: usize) -> bool {
    &&& dependencies_entry(top, held(a.class_dependencies@, k), held(b.class_dependencies@, k))
    &&& properties_entry(top, held(a.variant_properties@, k), held(b.variant_properties@, k))
    &&& template_entry(top, held(a.template_strings@, k), held(b.template_strings@, k))
    &&& printer_entry(top, held(a.printers@, k), held(b.printers@, k))
    &&& policy_entry(top, held(a.retry_policies@, k), held(b.retry_policies@, k))
    &&& test_entry(top, held(a.test_cases@, k), held(b.test_cases@, k))
}

/// The tables `b` are the tables `a` with what the first `n` declarations
/// bring put in, each at its position: for a class its dependencies, for a
/// variant that binds them its properties, for a template string its text,
/// for a configuration block what it declares. The attributes are as they
/// were.
pub open spec fn tables_filled(a: Types, b: Types, tops: Seq<Top>, n: nat) -> bool {
    &&& b.enum_attributes == a.enum_attributes
    &&& b.class_attributes == a.class_attributes
    &&& b.variant_attributes == a.variant_attributes
    &&& forall|k: usize| #[trigger] filled_at(declared(tops, k, n), a, b, k)
}

/// At the key `k` the tables hold what the declaration `top` brings, and
/// nothing where it brings nothing.
pub open spec fn holds_at(top: Option<Top>, types: Types, k: usize) -> bool {
    &&& dependencies_entry(top, None, held(types.class_dependencies@, k))
    &&& properties_entry(top, None, held(types.variant_properties@, k))
    &&& template_entry(top, None, held(types.template_strings@, k))
    &&& printer_entry(top, None, held(types.printers@, k))
    &&& policy_entry(top, None, held(types.retry_policies@, k))
    &&& test_entry(top, None, held(types.test_cases@, k))
}

/// The tables hold what the first `n` declarations bring, each at its
/// position, and nothing else.
pub open spec fn tables_hold(types: Types, tops: Seq<Top>, n: nat) -> bool {
    forall|k: usize| #[trigger] holds_at(declared(tops, k, n), types, k)
}

/// Tables that were empty and then filled hold what the declarations bring
/// and nothing else.
pub proof fn lemma_filled_from_empty(a: Types, b: Types, tops: Seq<Top>, n: nat)
    requires
        a.is_empty(),
        tables_filled(a, b, tops, n),
    ensures
        tables_hold(b, tops, n),
{
    assert forall|k: usize| #[trigger] holds_at(declared(tops, k, n), b, k) by {
        assert(filled_at(declared(tops, k, n), a, b, k));
    }
}

/// Fills the tables from every declaration of the syntax tree, in order.
pub fn resolve_types(ctx: &mut Context, ast: &SchemaAst)
    ensures
        final(ctx).diagnostics@ == old(ctx).diagnostics@ + tops_entries(
            ast.tops@,
            ast.tops@.len(),
        ),
        tables_filled(old(ctx).types, final(ctx).types, ast.tops@, ast.tops@.len()),
{
    let ghost start = ctx.diagnostics@;
    let ghost first = ctx.types;
    let mut i: usize = 0;
    proof {
        assert(ctx.diagnostics@ =~= start + tops_entries(ast.tops@, 0));
    }
    while i < ast.tops.len()
        invariant
            i <= ast.tops.len(),
            ctx.diagnostics@ == start + tops_entries(ast.tops@, i as nat),
            tables_filled(first, ctx.types, ast.tops@, i as nat),
        decreases ast.tops.len() - i,
    {
        let ghost before = ctx.diagnostics@;
        let ghost types_before = ctx.types;
        match &ast.tops[i] {
            Top::Enum(enm) => visit_enum(enm, ctx),
            Top::Class(model) => visit_class(ClassId(i), model, ctx),
            Top::TemplateString(template_string) => visit_template_string(
                TemplateStringId(i),
                template_string,
                ctx,
            ),
            Top::Variant(variant) => visit_variant(VariantConfigId(i), variant, ctx),
            Top::Config(cfg) => visit_config(ConfigurationId(i), cfg, ctx),
        }
        proof {
            assert(ctx.diagnostics@ =~= before + top_entries(ast.tops@[i as int]));
            assert(ctx.diagnostics@ =~= start + tops_entries(ast.tops@, (i + 1) as nat));
            assert forall|k: usize| #[trigger]
                filled_at(declared(ast.tops@, k, (i + 1) as nat), first, ctx.types, k) by {
                assert(filled_at(declared(ast.tops@, k, i as nat), first, types_before, k));
            }
        }
        i += 1;
    }
}

} // verus!
