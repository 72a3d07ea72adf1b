//! Structural validation of variants.
//!
//! A variant must be bound to a language model, declare exactly one `client`
//! and one `prompt` and nothing else, and have at most one adapter for its
//! input and one for its output.

use vstd::prelude::*;
use crate::ast::{
    Adapter, ConfigBlockProperty, Expression, FieldArity, FieldType, Identifier, RawString,
    Variant, VariantConfigId,
};
use crate::coerce::{plain_error, raw_string, string_with_span, type_mismatch};
use crate::context::Context;
use crate::diagnostics::{
    DatamodelError, DatamodelWarning, DiagnosticView, ErrorKind, Span, WarningView,
};
use crate::prompt::{AdapterId, PromptVariable, StringValue, VariantProperties};
use crate::text::{concat3, concat5, str_eq};
use crate::types::Types;

verus! {

/// One of the first `n` fields is named `word`.
pub open spec fn declared_before(fields: Seq<ConfigBlockProperty>, word: Seq<char>, n: nat) -> bool
    decreases n,
{
    n > 0 && n <= fields.len() && (fields[n - 1].name@ == word || declared_before(
        fields,
        word,
        (n - 1) as nat,
    ))
}

/// The last of the first `n` fields that is named `word` and has a value.
pub open spec fn chosen(fields: Seq<ConfigBlockProperty>, word: Seq<char>, n: nat) -> Option<int>
    decreases n,
{
    if n == 0 || n > fields.len() {
        None
    } else if fields[n - 1].name@ == word && fields[n - 1].value is Some {
        Some(n - 1)
    } else {
        chosen(fields, word, (n - 1) as nat)
    }
}

/// What is recorded for field `i`, which is named `word`, one of the two
/// names a variant knows: an error where the name was used before, and an
/// error where the key carries arguments.
pub open spec fn known_field_entries(fields: Seq<ConfigBlockProperty>, i: int, word: Seq<char>) -> Seq<
    DiagnosticView,
> {
    (if declared_before(fields, word, i as nat) {
        seq![
            plain_error(
                ErrorKind::DuplicateField,
                "Duplicate field `"@ + word + "` in impl<llm>"@,
                fields[i].span,
            ),
        ]
    } else {
        Seq::empty()
    }) + (if fields[i].template_args is Some {
        seq![
            plain_error(
                ErrorKind::Validation,
                "Did you mean `"@ + word + "` instead of `"@ + word + "<...>`?"@,
                fields[i].span,
            ),
        ]
    } else {
        Seq::empty()
    })
}

/// What is recorded for field `i`.
pub open spec fn field_entries_at(fields: Seq<ConfigBlockProperty>, i: int) -> Seq<DiagnosticView> {
    if fields[i].name@ == "client"@ {
        known_field_entries(fields, i, "client"@)
    } else if fields[i].name@ == "prompt"@ {
        known_field_entries(fields, i, "prompt"@)
    } else {
        seq![
            plain_error(
                ErrorKind::UnknownField,
                "Unknown field `"@ + fields[i].name@ + "` in impl<llm>"@,
                fields[i].span,
            ),
        ]
    }
}

/// What is recorded for the first `n` fields.
pub open spec fn fields_entries(fields: Seq<ConfigBlockProperty>, n: nat) -> Seq<DiagnosticView>
    decreases n,
{
    if n == 0 || n > fields.len() {
        Seq::empty()
    } else {
        fields_entries(fields, (n - 1) as nat) + field_entries_at(fields, n - 1)
    }
}

/// A warning.
pub open spec fn warning(message: Seq<char>, span: Span) -> DiagnosticView {
    DiagnosticView::Warning(WarningView { message, span })
}

/// What is recorded for the client: an error where it is missing or no string.
pub open spec fn client_entries(v: Variant) -> Seq<DiagnosticView> {
    match chosen(v.fields@, "client"@, v.fields@.len()) {
        Some(i) => match v.fields@[i].value->0.string_text() {
            Some(_) => Seq::empty(),
            None => seq![
                type_mismatch(
                    "string"@,
                    v.fields@[i].value->0.kind_word(),
                    v.fields@[i].value_span,
                ),
            ],
        },
        None => seq![
            plain_error(
                ErrorKind::MissingField,
                "Missing `client` field in impl<llm>"@,
                v.name_span,
            ),
        ],
    }
}

/// The client: its text, where the value stands and where the key stands.
pub open spec fn client_of(v: Variant) -> Option<(Seq<char>, Span, Span)> {
    match chosen(v.fields@, "client"@, v.fields@.len()) {
        Some(i) => match v.fields@[i].value->0.string_text() {
            Some(t) => Some((t, v.fields@[i].value_span, v.fields@[i].key_span)),
            None => None,
        },
        None => None,
    }
}

/// An error for each of the first `n` findings of the template parser,
/// with the message of the finding, at its place.
pub open spec fn finding_entries(found: Seq<(String, Span)>, n: nat) -> Seq<DiagnosticView>
    decreases n,
{
    if n == 0 || n > found.len() {
        Seq::empty()
    } else {
        finding_entries(found, (n - 1) as nat).push(
            plain_error(ErrorKind::Syntax, found[n - 1].0@, found[n - 1].1),
        )
    }
}

/// What is recorded for a raw prompt block that the template parser
/// rejected: an error for each finding of the parser, and, where it names
/// none, one error at the block.
pub open spec fn rejection_entries(found: Seq<(String, Span)>, span: Span) -> Seq<DiagnosticView> {
    if found.len() == 0 {
        seq![plain_error(ErrorKind::Syntax, "The prompt could not be parsed"@, span)]
    } else {
        finding_entries(found, found.len())
    }
}

/// What is recorded for the prompt: an error where it is missing or no
/// string, a warning where it is a string but no raw block, and the errors
/// of the template parser where it rejected a raw block.
pub open spec fn prompt_entries(v: Variant) -> Seq<DiagnosticView> {
    match chosen(v.fields@, "prompt"@, v.fields@.len()) {
        Some(i) => match v.fields@[i].value->0 {
            Expression::RawString(raw) => match v.prompt_markers {
                Ok(_) => Seq::empty(),
                Err(found) => rejection_entries(found@, raw.span),
            },
            e => match e.string_text() {
                Some(_) => seq![
                    warning(
                        "To use comments and {#vars} use a block string. #\"...\"# instead."@,
                        v.fields@[i].value_span,
                    ),
                ],
                None => seq![type_mismatch("string"@, e.kind_word(), v.fields@[i].value_span)],
            },
        },
        None => seq![
            plain_error(
                ErrorKind::MissingField,
                "Missing `prompt` field in impl<llm>"@,
                v.name_span,
            ),
        ],
    }
}

/// The prompt: its text, where the value stands, where the key stands, and
/// the markers located in it. A raw block comes with the markers that the
/// template parser located, and is no prompt where the parser rejected it
/// (the errors of the parser are recorded then); a plain string has no
/// markers.
pub open spec fn prompt_of(v: Variant) -> Option<(Seq<char>, Span, Span, Seq<PromptVariable>)> {
    match chosen(v.fields@, "prompt"@, v.fields@.len()) {
        Some(i) => match v.fields@[i].value->0 {
            Expression::RawString(raw) => match v.prompt_markers {
                Ok(markers) => Some((raw.value@, raw.span, v.fields@[i].key_span, markers@)),
                Err(_) => None,
            },
            e => match e.string_text() {
                Some(t) => Some(
                    (t, v.fields@[i].value_span, v.fields@[i].key_span, Seq::empty()),
                ),
                None => None,
            },
        },
        None => None,
    }
}

/// The side of an adapter names `word` and is optional: an error.
pub open spec fn side_is_optional(ft: FieldType, word: Seq<char>) -> bool {
    ft matches FieldType::Identifier(arity, idn) && idn.name_spec() == word && arity
        == FieldArity::Optional
}

/// The side of an adapter names `word` and is required.
pub open spec fn side_is(ft: FieldType, word: Seq<char>) -> bool {
    ft matches FieldType::Identifier(arity, idn) && idn.name_spec() == word && arity
        == FieldArity::Required
}

/// What is recorded for one side of an adapter.
pub open spec fn side_entries(ft: FieldType, word: Seq<char>, span: Span) -> Seq<DiagnosticView> {
    if side_is_optional(ft, word) {
        seq![
            plain_error(
                ErrorKind::Validation,
                "The `"@ + word + "` adapter cannot be optional."@,
                span,
            ),
        ]
    } else {
        Seq::empty()
    }
}

/// What is recorded for the first `n` items of a list of implementations:
/// an error for each item that is no raw string block.
pub open spec fn items_entries(items: Seq<Expression>, span: Span, n: nat) -> Seq<DiagnosticView>
    decreases n,
{
    if n == 0 || n > items.len() {
        Seq::empty()
    } else if items[n - 1] is RawString {
        items_entries(items, span, (n - 1) as nat)
    } else {
        items_entries(items, span, (n - 1) as nat).push(
            type_mismatch("raw string"@, items[n - 1].kind_word(), span),
        )
    }
}

/// The raw string blocks among the first `n` items, in order.
pub open spec fn raw_items(items: Seq<Expression>, n: nat) -> Seq<RawString>
    decreases n,
{
    if n == 0 || n > items.len() {
        Seq::empty()
    } else {
        match items[n - 1] {
            Expression::RawString(raw) => raw_items(items, (n - 1) as nat).push(raw),
            _ => raw_items(items, (n - 1) as nat),
        }
    }
}

/// What is recorded for the implementations of an adapter.
pub open spec fn converter_entries(e: Expression, span: Span) -> Seq<DiagnosticView> {
    match e {
        Expression::List(items) => items_entries(items@, span, items@.len()),
        Expression::RawString(_) => Seq::empty(),
        _ => seq![type_mismatch("raw string"@, e.kind_word(), span)],
    }
}

/// The implementations of an adapter: the raw string blocks of a list, or
/// a single raw string block.
pub open spec fn converter_impls(e: Expression) -> Option<Seq<RawString>> {
    match e {
        Expression::List(items) => Some(raw_items(items@, items@.len())),
        Expression::RawString(raw) => Some(seq![raw]),
        _ => None,
    }
}

/// Which adapters a variant has so far.
pub struct AdapterState {
    /// The position of the adapter accepted for the input.
    pub input: Option<int>,
    /// The position of the adapter accepted for the output.
    pub output: Option<int>,
}

/// What is recorded for the adapter at position `idx`, given the adapters
/// accepted before it.
pub open spec fn adapter_entries_at(a: Adapter, s: AdapterState) -> Seq<DiagnosticView> {
    let sides = side_entries(a.from, "input"@, a.from_span) + side_entries(
        a.to,
        "output"@,
        a.to_span,
    );
    let is_input = side_is(a.from, "input"@);
    let is_output = side_is(a.to, "output"@);
    if is_input && is_output {
        sides.push(
            plain_error(
                ErrorKind::Validation,
                "The `input` and `output` adapters cannot be used together."@,
                a.span,
            ),
        )
    } else if is_input {
        if s.input is Some {
            sides.push(
                plain_error(
                    ErrorKind::Validation,
                    "The `input` adapter can only be used once."@,
                    a.span,
                ),
            )
        } else if converter_impls(a.converter) is Some {
            (sides + converter_entries(a.converter, a.converter_span)).push(
                warning("The `input` adapter is note yet supported."@, a.span),
            )
        } else {
            sides + converter_entries(a.converter, a.converter_span)
        }
    } else if is_output {
        if s.output is Some {
            sides.push(
                plain_error(
                    ErrorKind::Validation,
                    "The `output` adapter can only be used once."@,
                    a.span,
                ),
            )
        } else {
            sides + converter_entries(a.converter, a.converter_span)
        }
    } else {
        sides.push(
            plain_error(
                ErrorKind::Validation,
                "The `input` or `output` adapter must be used."@,
                a.span,
            ),
        )
    }
}

/// The adapters accepted once the adapter at position `idx` was seen.
pub open spec fn adapter_step(a: Adapter, idx: int, s: AdapterState) -> AdapterState {
    let is_input = side_is(a.from, "input"@);
    let is_output = side_is(a.to, "output"@);
    if is_input && is_output {
        s
    } else if is_input {
        if s.input is None && converter_impls(a.converter) is Some {
            AdapterState { input: Some(idx), output: s.output }
        } else {
            s
        }
    } else if is_output {
        if s.output is None && converter_impls(a.converter) is Some {
            AdapterState { input: s.input, output: Some(idx) }
        } else {
            s
        }
    } else {
        s
    }
}

/// The adapters accepted among the first `n`.
pub open spec fn adapters_state(adapters: Seq<Adapter>, n: nat) -> AdapterState
    decreases n,
{
    if n == 0 || n > adapters.len() {
        AdapterState { input: None, output: None }
    } else {
        adapter_step(adapters[n - 1], n - 1, adapters_state(adapters, (n - 1) as nat))
    }
}

/// What is recorded for the first `n` adapters.
pub open spec fn adapters_entries(adapters: Seq<Adapter>, n: nat) -> Seq<DiagnosticView>
    decreases n,
{
    if n == 0 || n > adapters.len() {
        Seq::empty()
    } else {
        adapters_entries(adapters, (n - 1) as nat) + adapter_entries_at(
            adapters[n - 1],
            adapters_state(adapters, (n - 1) as nat),
        )
    }
}

/// Everything that is recorded for a variant.
pub open spec fn variant_entries(v: Variant) -> Seq<DiagnosticView> {
    if !v.is_llm_spec() {
        seq![
            plain_error(
                ErrorKind::UnsupportedConstruct,
                "Only LLM variants are supported. Use: impl<llm>"@,
                v.span,
            ),
        ]
    } else {
        fields_entries(v.fields@, v.fields@.len()) + client_entries(v) + prompt_entries(v)
            + adapters_entries(v.adapters@, v.adapters@.len())
    }
}

/// The variant gets properties: it is bound to a language model and has a
/// client and a prompt.
pub open spec fn binds(v: Variant) -> bool {
    v.is_llm_spec() && client_of(v) is Some && prompt_of(v) is Some
}

/// Two raw string blocks hold the same.
pub open spec fn same_block(a: RawString, b: RawString) -> bool {
    &&& a.value@ == b.value@
    &&& a.span == b.span
    &&& match (a.language, b.language) {
        (Some(x), Some(y)) => x@ == y@,
        (None, None) => true,
        _ => false,
    }
}

/// Two lists of raw string blocks hold the same.
pub open spec fn same_blocks(a: Seq<RawString>, b: Seq<RawString>) -> bool {
    a.len() == b.len() && forall|i: int| 0 <= i < a.len() ==> same_block(#[trigger] a[i], b[i])
}

/// Two lists of markers hold the same.
pub open spec fn same_markers(a: Seq<PromptVariable>, b: Seq<PromptVariable>) -> bool {
    a.len() == b.len() && forall|i: int| 0 <= i < a.len() ==> (#[trigger] a[i])@ == b[i]@
}

/// `out` is the adapter at position `idx` with its implementations.
pub open spec fn adapter_is(
    out: Option<(AdapterId, Vec<RawString>)>,
    adapters: Seq<Adapter>,
    idx: int,
) -> bool {
    &&& out matches Some(adapter)
    &&& adapter.0.0 == idx
    &&& converter_impls(adapters[idx].converter) matches Some(blocks)
    &&& same_blocks(adapter.1@, blocks)
}

/// `p` has no replacement texts yet.
pub open spec fn unlinked(p: VariantProperties) -> bool {
    p.replacers.0@.len() == 0 && p.replacers.1@.len() == 0 && p.replacers.2@.len() == 0
}

/// `p` holds what the variant binds: its client, its prompt with the
/// markers located in it, and the adapters that were accepted for the input
/// and for the output.
pub open spec fn properties_of(p: VariantProperties, v: Variant) -> bool {
    &&& client_of(v) matches Some(c)
    &&& prompt_of(v) matches Some(q)
    &&& p.client.value@ == c.0
    &&& p.client.span == c.1
    &&& p.client.key_span == c.2
    &&& p.prompt.value@ == q.0
    &&& p.prompt.span == q.1
    &&& p.prompt.key_span == q.2
    &&& same_markers(p.prompt_replacements@, q.3)
    &&& match adapters_state(v.adapters@, v.adapters@.len()).input {
        Some(idx) => adapter_is(p.input_adapter, v.adapters@, idx),
        None => p.input_adapter is None,
    }
    &&& match adapters_state(v.adapters@, v.adapters@.len()).output {
        Some(idx) => adapter_is(p.output_adapter, v.adapters@, idx),
        None => p.output_adapter is None,
    }
}

/// The table of variant properties of `b` is that of `a` with an entry for
/// `key` put in.
pub open spec fn property_added(a: Types, b: Types, key: usize) -> bool {
    &&& b.variant_properties@.dom() == a.variant_properties@.dom().insert(key)
    &&& forall|k: usize|
        k != key && a.variant_properties@.contains_key(k) ==> b.variant_properties@[k]
            == a.variant_properties@[k]
}

/// Every table but that of the variant properties is the same.
pub open spec fn same_but_properties(a: Types, b: Types) -> bool {
    &&& a.enum_attributes == b.enum_attributes
    &&& a.class_attributes == b.class_attributes
    &&& a.class_dependencies == b.class_dependencies
    &&& a.variant_attributes == b.variant_attributes
    &&& a.retry_policies == b.retry_policies
    &&& a.printers == b.printers
    &&& a.test_cases == b.test_cases
    &&& a.template_strings == b.template_strings
}

fn duplicate_markers(markers: &Vec<PromptVariable>) -> (r: Vec<PromptVariable>)
    ensures
        same_markers(r@, markers@),
{
    let mut out: Vec<PromptVariable> = Vec::new();
    let mut i: usize = 0;
    while i < markers.len()
        invariant
            i <= markers.len(),
            out@.len() == i,
            forall|j: int| 0 <= j < i ==> (#[trigger] out@[j])@ == markers@[j]@,
        decreases markers.len() - i,
    {
        out.push(markers[i].duplicate());
        i += 1;
    }
    out
}

/// The implementations of an adapter, with an error recorded for each part
/// that is no raw string block.
fn coerce_converter(a: &Adapter, ctx: &mut Context) -> (r: Option<Vec<RawString>>)
    ensures
        final(ctx).diagnostics@ == old(ctx).diagnostics@ + converter_entries(
            a.converter,
            a.converter_span,
        ),
        final(ctx).types == old(ctx).types,
        match converter_impls(a.converter) {
            Some(blocks) => r matches Some(got) && same_blocks(got@, blocks),
            None => r is None,
        },
{
    match &a.converter {
        Expression::List(items) => {
            let mut out: Vec<RawString> = Vec::new();
            let mut i: usize = 0;
            proof {
                assert(ctx.diagnostics@ =~= old(ctx).diagnostics@ + items_entries(
                    items@,
                    a.converter_span,
                    0,
                ));
            }
            while i < items.len()
                invariant
                    i <= items.len(),
                    ctx.types == old(ctx).types,
                    ctx.diagnostics@ == old(ctx).diagnostics@ + items_entries(
                        items@,
                        a.converter_span,
                        i as nat,
                    ),
                    same_blocks(out@, raw_items(items@, i as nat)),
                decreases items.len() - i,
            {
                let ghost before = ctx.diagnostics@;
                let ghost blocks = raw_items(items@, i as nat);
                match raw_string(&items[i], a.converter_span, &mut ctx.diagnostics) {
                    Some(raw) => {
                        out.push(raw.duplicate());
                        proof {
                            let now = raw_items(items@, (i + 1) as nat);
                            assert(now == blocks.push(*raw));
                            assert forall|j: int| 0 <= j < out@.len() implies same_block(
                                #[trigger] out@[j],
                                now[j],
                            ) by {
                                if j < blocks.len() {
                                    assert(now[j] == blocks[j]);
                                }
                            }
                        }
                    },
                    None => {
                        proof {
                            assert(ctx.diagnostics@ =~= old(ctx).diagnostics@ + items_entries(
                                items@,
                                a.converter_span,
                                (i + 1) as nat,
                            ));
                        }
                    },
                }
                i += 1;
            }
            Some(out)
        },
        other => {
            let ghost before = ctx.diagnostics@;
            match raw_string(other, a.converter_span, &mut ctx.diagnostics) {
                Some(raw) => {
                    let mut out: Vec<RawString> = Vec::new();
                    out.push(raw.duplicate());
                    proof {
                        assert(ctx.diagnostics@ =~= before + Seq::empty());
                    }
                    Some(out)
                },
                None => {
                    proof {
                        assert(ctx.diagnostics@ =~= before + seq![
                            type_mismatch(
                                "raw string"@,
                                a.converter.kind_word(),
                                a.converter_span,
                            ),
                        ]);
                    }
                    None
                },
            }
        },
    }
}

/// Whether a side of an adapter names `word`; an error is recorded where
/// it does and is optional.
fn check_side(ft: &FieldType, word: &str, span: Span, ctx: &mut Context) -> (r: bool)
    ensures
        r == side_is(*ft, word@),
        final(ctx).diagnostics@ == old(ctx).diagnostics@ + side_entries(*ft, word@, span),
        final(ctx).types == old(ctx).types,
{
    let ghost before = ctx.diagnostics@;
    match ft {
        FieldType::Identifier(arity, idn) => {
            let name = idn.name();
            if str_eq(name.as_str(), word) {
                if arity.is_optional() {
                    ctx.push_error(
                        DatamodelError::new(
                            ErrorKind::Validation,
                            concat3("The `", word, "` adapter cannot be optional."),
                            span,
                        ),
                    );
                    proof {
                        assert(ctx.diagnostics@ =~= before + side_entries(*ft, word@, span));
                    }
                    false
                } else {
                    proof {
                        assert(ctx.diagnostics@ =~= before + side_entries(*ft, word@, span));
                    }
                    true
                }
            } else {
                proof {
                    assert(ctx.diagnostics@ =~= before + side_entries(*ft, word@, span));
                }
                false
            }
        },
        _ => {
            proof {
                assert(ctx.diagnostics@ =~= before + side_entries(*ft, word@, span));
            }
            false
        },
    }
}

/// Checks one of the two fields that a variant knows.
fn check_known_field(
    fields: &Vec<ConfigBlockProperty>,
    i: usize,
    word: &str,
    seen: bool,
    ctx: &mut Context,
)
    requires
        i < fields.len(),
        seen == declared_before(fields@, word@, i as nat),
    ensures
        final(ctx).diagnostics@ == old(ctx).diagnostics@ + known_field_entries(
            fields@,
            i as int,
            word@,
        ),
        final(ctx).types == old(ctx).types,
{
    let ghost before = ctx.diagnostics@;
    let field = &fields[i];
    if seen {
        ctx.push_error(
            DatamodelError::new(
                ErrorKind::DuplicateField,
                concat3("Duplicate field `", word, "` in impl<llm>"),
                field.span,
            ),
        );
    }
    if field.template_args.is_some() {
        ctx.push_error(
            DatamodelError::new(
                ErrorKind::Validation,
                concat5("Did you mean `", word, "` instead of `", word, "<...>`?"),
                field.span,
            ),
        );
    }
    proof {
        assert(ctx.diagnostics@ =~= before + known_field_entries(fields@, i as int, word@));
    }
}

/// Checks the fields of a variant and picks the fields that give the
/// client and the prompt.
fn visit_fields(fields: &Vec<ConfigBlockProperty>, ctx: &mut Context) -> (r: (
    Option<usize>,
    Option<usize>,
))
    ensures
        final(ctx).diagnostics@ == old(ctx).diagnostics@ + fields_entries(fields@, fields@.len()),
        final(ctx).types == old(ctx).types,
        match r.0 {
            Some(c) => chosen(fields@, "client"@, fields@.len()) == Some(c as int) && c
                < fields@.len() && fields@[c as int].value is Some,
            None => chosen(fields@, "client"@, fields@.len()) is None,
        },
        match r.1 {
            Some(c) => chosen(fields@, "prompt"@, fields@.len()) == Some(c as int) && c
                < fields@.len() && fields@[c as int].value is Some,
            None => chosen(fields@, "prompt"@, fields@.len()) is None,
        },
{
    let ghost start = ctx.diagnostics@;
    let mut client: Option<usize> = None;
    let mut prompt: Option<usize> = None;
    let mut seen_client = false;
    let mut seen_prompt = false;
    let mut i: usize = 0;
    proof {
        assert(ctx.diagnostics@ =~= start + fields_entries(fields@, 0));
    }
    while i < fields.len()
        invariant
            i <= fields.len(),
            ctx.types == old(ctx).types,
            ctx.diagnostics@ == start + fields_entries(fields@, i as nat),
            seen_client == declared_before(fields@, "client"@, i as nat),
            seen_prompt == declared_before(fields@, "prompt"@, i as nat),
            match client {
                Some(c) => chosen(fields@, "client"@, i as nat) == Some(c as int) && c < i
                    && fields@[c as int].value is Some,
                None => chosen(fields@, "client"@, i as nat) is None,
            },
            match prompt {
                Some(c) => chosen(fields@, "prompt"@, i as nat) == Some(c as int) && c < i
                    && fields@[c as int].value is Some,
                None => chosen(fields@, "prompt"@, i as nat) is None,
            },
        decreases fields.len() - i,
    {
        let ghost before = ctx.diagnostics@;
        let field = &fields[i];
        proof {
            reveal_strlit("client");
            reveal_strlit("prompt");
            assert("client"@[0] == 'c');
            assert("prompt"@[0] == 'p');
        }
        if str_eq(field.name.as_str(), "client") {
            check_known_field(fields, i, "client", seen_client, ctx);
            seen_client = true;
            if field.value.is_some() {
                client = Some(i);
            }
        } else if str_eq(field.name.as_str(), "prompt") {
            check_known_field(fields, i, "prompt", seen_prompt, ctx);
            seen_prompt = true;
            if field.value.is_some() {
                prompt = Some(i);
            }
        } else {
            ctx.push_error(
                DatamodelError::new(
                    ErrorKind::UnknownField,
                    concat3("Unknown field `", field.name.as_str(), "` in impl<llm>"),
                    field.span,
                ),
            );
        }
        proof {
            assert(ctx.diagnostics@ =~= before + field_entries_at(fields@, i as int));
            assert(ctx.diagnostics@ =~= start + fields_entries(fields@, (i + 1) as nat));
        }
        i += 1;
    }
    (client, prompt)
}

/// Reads the client of a variant from the field picked for it.
fn visit_client(variant: &Variant, client: Option<usize>, ctx: &mut Context) -> (r: Option<
    StringValue,
>)
    requires
        match client {
            Some(c) => chosen(variant.fields@, "client"@, variant.fields@.len()) == Some(c as int)
                && c < variant.fields@.len() && variant.fields@[c as int].value is Some,
            None => chosen(variant.fields@, "client"@, variant.fields@.len()) is None,
        },
    ensures
        final(ctx).diagnostics@ == old(ctx).diagnostics@ + client_entries(*variant),
        final(ctx).types == old(ctx).types,
        match client_of(*variant) {
            Some(c) => r matches Some(got) && got.value@ == c.0 && got.span == c.1 && got.key_span
                == c.2,
            None => r is None,
        },
{
    let ghost before = ctx.diagnostics@;
    match client {
        Some(c) => {
            let field = &variant.fields[c];
            match &field.value {
                Some(e) => {
                    let text = string_with_span(e, field.value_span, &mut ctx.diagnostics);
                    proof {
                        assert(ctx.diagnostics@ =~= before + client_entries(*variant));
                    }
                    match text {
                        Some(s) => Some(
                            StringValue {
                                value: s,
                                span: field.value_span,
                                key_span: field.key_span,
                            },
                        ),
                        None => None,
                    }
                },
                None => None,
            }
        },
        None => {
            ctx.push_error(
                DatamodelError::new(
                    ErrorKind::MissingField,
                    "Missing `client` field in impl<llm>".to_string(),
                    variant.name_span,
                ),
            );
            proof {
                assert(ctx.diagnostics@ =~= before + client_entries(*variant));
            }
            None
        },
    }
}

/// Records what the template parser found wrong with a raw prompt block.
fn reject_prompt(found: &Vec<(String, Span)>, span: Span, ctx: &mut Context)
    ensures
        final(ctx).diagnostics@ == old(ctx).diagnostics@ + rejection_entries(found@, span),
        final(ctx).types == old(ctx).types,
{
    let ghost before = ctx.diagnostics@;
    if found.len() == 0 {
        ctx.push_error(
            DatamodelError::new(
                ErrorKind::Syntax,
                "The prompt could not be parsed".to_string(),
                span,
            ),
        );
        proof {
            assert(ctx.diagnostics@ =~= before + rejection_entries(found@, span));
        }
        return ;
    }
    let mut i: usize = 0;
    proof {
        assert(ctx.diagnostics@ =~= before + finding_entries(found@, 0));
    }
    while i < found.len()
        invariant
            i <= found.len(),
            ctx.types == old(ctx).types,
            ctx.diagnostics@ == before + finding_entries(found@, i as nat),
        decreases found.len() - i,
    {
        ctx.push_error(DatamodelError::new(ErrorKind::Syntax, found[i].0.clone(), found[i].1));
        proof {
            assert(ctx.diagnostics@ =~= before + finding_entries(found@, (i + 1) as nat));
        }
        i += 1;
    }
}

/// Reads the prompt of a variant from the field picked for it.
fn visit_prompt(variant: &Variant, prompt: Option<usize>, ctx: &mut Context) -> (r: Option<
    (StringValue, Vec<PromptVariable>),
>)
    requires
        match prompt {
            Some(c) => chosen(variant.fields@, "prompt"@, variant.fields@.len()) == Some(c as int)
                && c < variant.fields@.len() && variant.fields@[c as int].value is Some,
            None => chosen(variant.fields@, "prompt"@, variant.fields@.len()) is None,
        },
    ensures
        final(ctx).diagnostics@ == old(ctx).diagnostics@ + prompt_entries(*variant),
        final(ctx).types == old(ctx).types,
        match prompt_of(*variant) {
            Some(q) => r matches Some(got) && got.0.value@ == q.0 && got.0.span == q.1
                && got.0.key_span == q.2 && same_markers(got.1@, q.3),
            None => r is None,
        },
{
    let ghost before = ctx.diagnostics@;
    match prompt {
        Some(c) => {
            let field = &variant.fields[c];
            match &field.value {
                Some(Expression::RawString(raw)) => {
                    match &variant.prompt_markers {
                        Ok(markers) => {
                            proof {
                                assert(ctx.diagnostics@ =~= before + prompt_entries(*variant));
                            }
                            Some(
                                (
                                    StringValue {
                                        value: raw.value.clone(),
                                        span: raw.span,
                                        key_span: field.key_span,
                                    },
                                    duplicate_markers(markers),
                                ),
                            )
                        },
                        Err(found) => {
                            reject_prompt(found, raw.span, ctx);
                            None
                        },
                    }
                },
                Some(e) => {
                    let text = string_with_span(e, field.value_span, &mut ctx.diagnostics);
                    match text {
                        Some(s) => {
                            ctx.push_warning(
                                DatamodelWarning::new(
                                    "To use comments and {#vars} use a block string. #\"...\"# instead.".to_string(),
                                    field.value_span,
                                ),
                            );
                            proof {
                                assert(ctx.diagnostics@ =~= before + prompt_entries(*variant));
                            }
                            Some(
                                (
                                    StringValue {
                                        value: s,
                                        span: field.value_span,
                                        key_span: field.key_span,
                                    },
                                    Vec::new(),
                                ),
                            )
                        },
                        None => {
                            proof {
                                assert(ctx.diagnostics@ =~= before + prompt_entries(*variant));
                            }
                            None
                        },
                    }
                },
                None => None,
            }
        },
        None => {
            ctx.push_error(
                DatamodelError::new(
                    ErrorKind::MissingField,
                    "Missing `prompt` field in impl<llm>".to_string(),
                    variant.name_span,
                ),
            );
            proof {
                assert(ctx.diagnostics@ =~= before + prompt_entries(*variant));
            }
            None
        },
    }
}

/// Checks the adapter at position `k`. Gives its implementations where
/// it was accepted for the input, and where it was accepted for the output.
fn visit_adapter(
    adapter: &Adapter,
    input_taken: bool,
    output_taken: bool,
    ctx: &mut Context,
) -> (r: (Option<Vec<RawString>>, Option<Vec<RawString>>))
    ensures
        final(ctx).types == old(ctx).types,
        forall|s: AdapterState|
            (s.input is Some) == input_taken && (s.output is Some) == output_taken ==> {
                &&& final(ctx).diagnostics@ == old(ctx).diagnostics@ + #[trigger] adapter_entries_at(
                    *adapter,
                    s,
                )
                &&& if side_is(adapter.from, "input"@) && !side_is(adapter.to, "output"@)
                    && !input_taken {
                    match converter_impls(adapter.converter) {
                        Some(blocks) => r.0 matches Some(got) && same_blocks(got@, blocks),
                        None => r.0 is None,
                    }
                } else {
                    r.0 is None
                }
                &&& if side_is(adapter.to, "output"@) && !side_is(adapter.from, "input"@)
                    && !output_taken {
                    match converter_impls(adapter.converter) {
                        Some(blocks) => r.1 matches Some(got) && same_blocks(got@, blocks),
                        None => r.1 is None,
                    }
                } else {
                    r.1 is None
                }
            },
{
    let ghost before = ctx.diagnostics@;
    let is_input = check_side(&adapter.from, "input", adapter.from_span, ctx);
    let is_output = check_side(&adapter.to, "output", adapter.to_span, ctx);
    let ghost sides = side_entries(adapter.from, "input"@, adapter.from_span) + side_entries(
        adapter.to,
        "output"@,
        adapter.to_span,
    );
    proof {
        assert(ctx.diagnostics@ =~= before + sides);
    }
    let mut accepted_input: Option<Vec<RawString>> = None;
    let mut accepted_output: Option<Vec<RawString>> = None;
    if is_input && is_output {
        ctx.push_error(
            DatamodelError::new_validation_error(
                "The `input` and `output` adapters cannot be used together.",
                adapter.span,
            ),
        );
    } else if is_input {
        if input_taken {
            ctx.push_error(
                DatamodelError::new_validation_error(
                    "The `input` adapter can only be used once.",
                    adapter.span,
                ),
            );
        } else {
            accepted_input = coerce_converter(adapter, ctx);
            if accepted_input.is_some() {
                ctx.push_warning(
                    DatamodelWarning::new(
                        "The `input` adapter is note yet supported.".to_string(),
                        adapter.span,
                    ),
                );
            }
        }
    } else if is_output {
        if output_taken {
            ctx.push_error(
                DatamodelError::new_validation_error(
                    "The `output` adapter can only be used once.",
                    adapter.span,
                ),
            );
        } else {
            accepted_output = coerce_converter(adapter, ctx);
        }
    } else {
        ctx.push_error(
            DatamodelError::new_validation_error(
                "The `input` or `output` adapter must be used.",
                adapter.span,
            ),
        );
    }
    proof {
        assert forall|s: AdapterState|
            (s.input is Some) == input_taken && (s.output is Some) == output_taken implies ctx.diagnostics@
            == before + #[trigger] adapter_entries_at(*adapter, s) by {
            assert(ctx.diagnostics@ =~= before + adapter_entries_at(*adapter, s));
        }
    }
    (accepted_input, accepted_output)
}

/// Checks the adapters of a variant and gives the adapter for the input
/// and the adapter for the output.
fn visit_adapters(adapters: &Vec<Adapter>, ctx: &mut Context) -> (r: (
    Option<(AdapterId, Vec<RawString>)>,
    Option<(AdapterId, Vec<RawString>)>,
))
    ensures
        final(ctx).diagnostics@ == old(ctx).diagnostics@ + adapters_entries(
            adapters@,
            adapters@.len(),
        ),
        final(ctx).types == old(ctx).types,
        match adapters_state(adapters@, adapters@.len()).input {
            Some(idx) => 0 <= idx < adapters@.len() && adapter_is(r.0, adapters@, idx),
            None => r.0 is None,
        },
        match adapters_state(adapters@, adapters@.len()).output {
            Some(idx) => 0 <= idx < adapters@.len() && adapter_is(r.1, adapters@, idx),
            None => r.1 is None,
        },
{
    let ghost start = ctx.diagnostics@;
    let mut input_adapter: Option<(AdapterId, Vec<RawString>)> = None;
    let mut output_adapter: Option<(AdapterId, Vec<RawString>)> = None;
    let mut k: usize = 0;
    proof {
        assert(ctx.diagnostics@ =~= start + adapters_entries(adapters@, 0));
    }
    while k < adapters.len()
        invariant
            k <= adapters.len(),
            ctx.types == old(ctx).types,
            ctx.diagnostics@ == start + adapters_entries(adapters@, k as nat),
            match adapters_state(adapters@, k as nat).input {
                Some(idx) => 0 <= idx < k && adapter_is(input_adapter, adapters@, idx),
                None => input_adapter is None,
            },
            match adapters_state(adapters@, k as nat).output {
                Some(idx) => 0 <= idx < k && adapter_is(output_adapter, adapters@, idx),
                None => output_adapter is None,
            },
        decreases adapters.len() - k,
    {
        let ghost before = ctx.diagnostics@;
        let ghost state = adapters_state(adapters@, k as nat);
        let adapter = &adapters[k];
        let result = visit_adapter(
            adapter,
            input_adapter.is_some(),
            output_adapter.is_some(),
            ctx,
        );
        proof {
            assert(ctx.diagnostics@ == before + adapter_entries_at(*adapter, state));
            assert(ctx.diagnostics@ =~= start + adapters_entries(adapters@, (k + 1) as nat));
        }
        match result.0 {
            Some(blocks) => {
                input_adapter = Some((AdapterId(k), blocks));
            },
            None => {},
        }
        match result.1 {
            Some(blocks) => {
                output_adapter = Some((AdapterId(k), blocks));
            },
            None => {},
        }
        k += 1;
    }
    (input_adapter, output_adapter)
}

/// Validates a variant and records what it binds.
pub fn visit_variant(idx: VariantConfigId, variant: &Variant, ctx: &mut Context)
    ensures
        final(ctx).diagnostics@ == old(ctx).diagnostics@ + variant_entries(*variant),
        same_but_properties(final(ctx).types, old(ctx).types),
        binds(*variant) ==> property_added(old(ctx).types, final(ctx).types, idx.0),
        binds(*variant) ==> properties_of(final(ctx).types.variant_properties@[idx.0], *variant),
        binds(*variant) ==> unlinked(final(ctx).types.variant_properties@[idx.0]),
        !binds(*variant) ==> final(ctx).types.variant_properties == old(ctx).types.variant_properties,
{
    let ghost start = ctx.diagnostics@;
    if !variant.is_llm() {
        ctx.push_error(
            DatamodelError::new(
                ErrorKind::UnsupportedConstruct,
                "Only LLM variants are supported. Use: impl<llm>".to_string(),
                variant.span,
            ),
        );
        proof {
            assert(ctx.diagnostics@ =~= start + variant_entries(*variant));
        }
        return ;
    }
    let picked = visit_fields(&variant.fields, ctx);
    let client_value = visit_client(variant, picked.0, ctx);
    let prompt_value = visit_prompt(variant, picked.1, ctx);
    let adapters = visit_adapters(&variant.adapters, ctx);
    proof {
        assert(ctx.diagnostics@ =~= start + variant_entries(*variant));
    }
    match (client_value, prompt_value) {
        (Some(client), Some(prompt)) => {
            let properties = VariantProperties {
                client,
                prompt: prompt.0,
                prompt_replacements: prompt.1,
                replacers: (Vec::new(), Vec::new(), Vec::new()),
                input_adapter: adapters.0,
                output_adapter: adapters.1,
            };
            let ghost table = ctx.types.variant_properties@;
            ctx.types.variant_properties.insert(idx.0, properties);
            proof {
                assert(ctx.types.variant_properties@ == table.insert(idx.0, properties));
                assert(ctx.types.variant_properties@.dom() =~= table.dom().insert(idx.0));
            }
        },
        _ => {},
    }
}

} // verus!
