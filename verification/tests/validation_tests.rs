use baml::ast::{
    Adapter, Class, ConfigBlock, ConfigBlockProperty, Configuration, Enum, EnumValue, Expression,
    Field, FieldArity, FieldType, Identifier, RawString, SchemaAst, TemplateString, TypeValue,
    Variant, VariantConfigId, ClassId,
};
use baml::context::Context;
use baml::cycle::validate_cycles;
use baml::diagnostics::{DatamodelError, DatamodelWarning, Diagnostic, Diagnostics, ErrorKind, Span};
use baml::graph::find_cycles;
use baml::parser_database::ParserDatabase;
use baml::prompt::{ChatBlock, PromptVariable, Variable};
use baml::schema::{validate_file, ParsedFile};
use baml::top::Top;
use baml::types::{PrinterType, RetryPolicyStrategy, Types};
use baml::validate::{validate, validate_classes, validate_enums};
use baml::variant::visit_variant;
use baml::visit::{resolve_types, visit_class, visit_config, visit_template_string};

fn span(n: usize) -> Span {
    Span::new(0, n, n + 1)
}

fn named(name: &str) -> FieldType {
    FieldType::Identifier(FieldArity::Required, Identifier::Local(name.to_string()))
}

fn optional(name: &str) -> FieldType {
    FieldType::Identifier(FieldArity::Optional, Identifier::Local(name.to_string()))
}

fn primitive(kind: TypeValue) -> FieldType {
    FieldType::Identifier(FieldArity::Required, Identifier::Primitive(kind))
}

fn field(name: &str, field_type: FieldType) -> Field {
    Field { name: name.to_string(), field_type, attributes: vec![], span: span(10) }
}

fn class(name: &str, fields: Vec<Field>) -> Top {
    Top::Class(Class { name: name.to_string(), fields, attributes: vec![], span: span(20) })
}

fn enumeration(name: &str, values: Vec<&str>) -> Top {
    Top::Enum(Enum {
        name: name.to_string(),
        values: values
            .into_iter()
            .enumerate()
            .map(|(i, v)| EnumValue { name: v.to_string(), attributes: vec![], span: span(30 + i) })
            .collect(),
        attributes: vec![],
        span: span(40),
    })
}

fn property(name: &str, value: Option<Expression>, n: usize) -> ConfigBlockProperty {
    ConfigBlockProperty {
        name: name.to_string(),
        template_args: None,
        value,
        key_span: span(100 + n),
        value_span: span(200 + n),
        span: span(300 + n),
    }
}

fn string(s: &str) -> Expression {
    Expression::String(s.to_string())
}

fn raw(s: &str) -> Expression {
    Expression::RawString(RawString::new(s.to_string(), span(50)))
}

fn variant(fields: Vec<ConfigBlockProperty>, adapters: Vec<Adapter>) -> Variant {
    Variant {
        name: "v1".to_string(),
        function_name: "Extract".to_string(),
        variant_type: "llm".to_string(),
        fields,
        serializers: vec![],
        adapters,
        prompt_markers: Ok(vec![]),
        name_span: span(60),
        span: span(61),
    }
}

fn adapter(from: FieldType, to: FieldType, converter: Expression) -> Adapter {
    Adapter { from, to, converter, from_span: span(70), to_span: span(71), converter_span: span(72), span: span(73) }
}

fn context() -> Context {
    Context { types: Types::new(), diagnostics: Diagnostics::new() }
}

fn database(tops: Vec<Top>) -> ParserDatabase {
    let mut db = ParserDatabase::new();
    db.add_ast(SchemaAst { tops });
    db
}

fn resolved(tops: Vec<Top>) -> (ParserDatabase, Diagnostics) {
    let ParserDatabase { ast, types } = database(tops);
    let mut ctx = Context { types, diagnostics: Diagnostics::new() };
    resolve_types(&mut ctx, &ast);
    (ParserDatabase { ast, types: ctx.types }, ctx.diagnostics)
}

fn errors(d: &Diagnostics) -> Vec<(ErrorKind, String, Span)> {
    d.errors().iter().map(|e| (e.kind, e.message().to_string(), e.span())).collect()
}

fn warnings(d: &Diagnostics) -> Vec<(String, Span)> {
    d.warnings().iter().map(|w| (w.message().to_string(), w.span())).collect()
}

fn cycle_names(d: &Diagnostics) -> Vec<Vec<String>> {
    d.errors().iter().filter(|e| e.kind == ErrorKind::Cycle).map(|e| e.names.clone()).collect()
}

#[test]
fn diagnostics_keep_order_and_know_errors() {
    let mut d = Diagnostics::new();
    assert!(!d.has_errors());
    d.push_warning(DatamodelWarning::new("careful".to_string(), span(1)));
    assert!(!d.has_errors());
    d.push_error(DatamodelError::new_validation_error("wrong", span(2)));
    assert!(d.has_errors());
    let mut more = Diagnostics::new();
    more.push_error(DatamodelError::new(ErrorKind::Syntax, "bad".to_string(), span(3)));
    d.push(more);
    assert_eq!(d.entries.len(), 3);
    assert!(matches!(d.entries[0], Diagnostic::Warning(_)));
    assert_eq!(
        errors(&d),
        vec![
            (ErrorKind::Validation, "wrong".to_string(), span(2)),
            (ErrorKind::Syntax, "bad".to_string(), span(3)),
        ]
    );
    assert_eq!(warnings(&d), vec![("careful".to_string(), span(1))]);
}

#[test]
fn well_formed_variant_binds_client_and_prompt() {
    let mut v = variant(
        vec![property("client", Some(string("GPT4")), 0), property("prompt", Some(raw("Hello {#input}")), 1)],
        vec![],
    );
    v.prompt_markers = Ok(vec![
        PromptVariable::Input(Variable { path: vec![], text: "{#input}".to_string(), span: span(0) }),
        PromptVariable::Chat(ChatBlock { role: "system".to_string(), span: span(0) }),
    ]);
    let mut ctx = context();
    visit_variant(VariantConfigId(4), &v, &mut ctx);
    assert!(ctx.diagnostics.entries.is_empty());
    let p = ctx.types.variant_properties.get(&4).expect("properties");
    assert_eq!(p.client.value, "GPT4");
    assert_eq!(p.client.span, span(200));
    assert_eq!(p.client.key_span, span(100));
    assert_eq!(p.prompt.value, "Hello {#input}");
    assert_eq!(p.prompt.span, span(50));
    assert_eq!(p.prompt.key_span, span(101));
    let keys: Vec<String> = p.prompt_replacements.iter().map(|m| m.key()).collect();
    assert_eq!(keys, vec!["{#input}", "system"]);
    assert!(p.input_adapter.is_none() && p.output_adapter.is_none());
    assert!(p.replacers.0.is_empty() && p.replacers.1.is_empty() && p.replacers.2.is_empty());
}

#[test]
fn variant_that_is_not_llm_is_unsupported() {
    let mut v = variant(vec![property("client", Some(string("c")), 0), property("prompt", Some(raw("p")), 1)], vec![]);
    v.variant_type = "code".to_string();
    let mut ctx = context();
    visit_variant(VariantConfigId(0), &v, &mut ctx);
    assert_eq!(
        errors(&ctx.diagnostics),
        vec![(
            ErrorKind::UnsupportedConstruct,
            "Only LLM variants are supported. Use: impl<llm>".to_string(),
            span(61)
        )]
    );
    assert!(ctx.types.variant_properties.is_empty());
}

#[test]
fn variant_missing_fields() {
    let mut ctx = context();
    visit_variant(VariantConfigId(0), &variant(vec![], vec![]), &mut ctx);
    assert_eq!(
        errors(&ctx.diagnostics),
        vec![
            (ErrorKind::MissingField, "Missing `client` field in impl<llm>".to_string(), span(60)),
            (ErrorKind::MissingField, "Missing `prompt` field in impl<llm>".to_string(), span(60)),
        ]
    );
    assert!(ctx.types.variant_properties.is_empty());
}

#[test]
fn variant_unknown_duplicate_and_templated_fields() {
    let mut templated = property("client", Some(string("a")), 0);
    templated.template_args = Some(vec![string("x")]);
    let v = variant(
        vec![
            templated,
            property("temperature", Some(Expression::Numeric("1".to_string())), 1),
            property("client", Some(string("b")), 2),
            property("prompt", Some(raw("p")), 3),
        ],
        vec![],
    );
    let mut ctx = context();
    visit_variant(VariantConfigId(0), &v, &mut ctx);
    assert_eq!(
        errors(&ctx.diagnostics),
        vec![
            (ErrorKind::Validation, "Did you mean `client` instead of `client<...>`?".to_string(), span(300)),
            (ErrorKind::UnknownField, "Unknown field `temperature` in impl<llm>".to_string(), span(301)),
            (ErrorKind::DuplicateField, "Duplicate field `client` in impl<llm>".to_string(), span(302)),
        ]
    );
    // the last value given wins
    assert_eq!(ctx.types.variant_properties.get(&0).unwrap().client.value, "b");
}

#[test]
fn variant_client_must_be_a_string() {
    let v = variant(
        vec![property("client", Some(Expression::Numeric("1".to_string())), 0), property("prompt", Some(raw("p")), 1)],
        vec![],
    );
    let mut ctx = context();
    visit_variant(VariantConfigId(0), &v, &mut ctx);
    assert_eq!(
        errors(&ctx.diagnostics),
        vec![(
            ErrorKind::TypeMismatch,
            "Expected a string value, but received numeric value".to_string(),
            span(200)
        )]
    );
    assert!(ctx.types.variant_properties.is_empty());
}

#[test]
fn variant_plain_string_prompt_warns() {
    let v = variant(
        vec![property("client", Some(string("c")), 0), property("prompt", Some(string("plain")), 1)],
        vec![],
    );
    let mut ctx = context();
    visit_variant(VariantConfigId(0), &v, &mut ctx);
    assert!(errors(&ctx.diagnostics).is_empty());
    assert_eq!(
        warnings(&ctx.diagnostics),
        vec![("To use comments and {#vars} use a block string. #\"...\"# instead.".to_string(), span(201))]
    );
    let p = ctx.types.variant_properties.get(&0).unwrap();
    assert_eq!(p.prompt.value, "plain");
    assert!(p.prompt_replacements.is_empty());
}

#[test]
fn variant_raw_prompt_rejected_by_the_template_parser_binds_nothing() {
    let mut v = variant(vec![property("client", Some(string("c")), 0), property("prompt", Some(raw("p")), 1)], vec![]);
    v.prompt_markers = Err(vec![("Unclosed block".to_string(), span(51)), ("Unknown role".to_string(), span(52))]);
    let mut ctx = context();
    visit_variant(VariantConfigId(0), &v, &mut ctx);
    assert_eq!(
        errors(&ctx.diagnostics),
        vec![
            (ErrorKind::Syntax, "Unclosed block".to_string(), span(51)),
            (ErrorKind::Syntax, "Unknown role".to_string(), span(52)),
        ]
    );
    assert!(ctx.types.variant_properties.is_empty());

    v.prompt_markers = Err(vec![]);
    let mut ctx = context();
    visit_variant(VariantConfigId(0), &v, &mut ctx);
    assert_eq!(
        errors(&ctx.diagnostics),
        vec![(ErrorKind::Syntax, "The prompt could not be parsed".to_string(), span(50))]
    );
    assert!(ctx.types.variant_properties.is_empty());
}

#[test]
fn variant_adapters() {
    let tagged = Expression::RawString(RawString {
        value: "def f(): pass".to_string(),
        language: Some("python".to_string()),
        span: span(80),
    });
    let v = variant(
        vec![property("client", Some(string("c")), 0), property("prompt", Some(raw("p")), 1)],
        vec![
            adapter(named("input"), named("Custom"), raw("in")),
            adapter(named("input"), named("Other"), raw("again")),
            adapter(named("Custom"), named("output"), Expression::List(vec![tagged, string("not raw"), raw("second")])),
            adapter(named("Custom"), named("output"), raw("again")),
            adapter(named("input"), named("output"), raw("both")),
            adapter(named("a"), named("b"), raw("neither")),
            adapter(optional("input"), optional("output"), raw("optional")),
        ],
    );
    let mut ctx = context();
    visit_variant(VariantConfigId(0), &v, &mut ctx);
    assert_eq!(
        errors(&ctx.diagnostics),
        vec![
            (ErrorKind::Validation, "The `input` adapter can only be used once.".to_string(), span(73)),
            (
                ErrorKind::TypeMismatch,
                "Expected a raw string value, but received string value".to_string(),
                span(72)
            ),
            (ErrorKind::Validation, "The `output` adapter can only be used once.".to_string(), span(73)),
            (
                ErrorKind::Validation,
                "The `input` and `output` adapters cannot be used together.".to_string(),
                span(73)
            ),
            (ErrorKind::Validation, "The `input` or `output` adapter must be used.".to_string(), span(73)),
            (ErrorKind::Validation, "The `input` adapter cannot be optional.".to_string(), span(70)),
            (ErrorKind::Validation, "The `output` adapter cannot be optional.".to_string(), span(71)),
            (ErrorKind::Validation, "The `input` or `output` adapter must be used.".to_string(), span(73)),
        ]
    );
    assert_eq!(
        warnings(&ctx.diagnostics),
        vec![("The `input` adapter is note yet supported.".to_string(), span(73))]
    );
    let p = ctx.types.variant_properties.get(&0).unwrap();
    let (id, impls) = p.input_adapter.as_ref().expect("input adapter");
    assert_eq!(id.0, 0);
    let texts: Vec<&str> = impls.iter().map(|r| r.value()).collect();
    assert_eq!(texts, vec!["in"]);
    let (id, impls) = p.output_adapter.as_ref().expect("output adapter");
    assert_eq!(id.0, 2);
    let texts: Vec<&str> = impls.iter().map(|r| r.value()).collect();
    assert_eq!(texts, vec!["def f(): pass", "second"]);
    assert_eq!(p.output_adapter_for_language("python"), Some("def f(): pass"));
}

#[test]
fn class_dependencies_are_collected_at_any_depth() {
    let c = Class {
        name: "Order".to_string(),
        fields: vec![
            field("customer", optional("Person")),
            field("items", FieldType::List(Box::new(named("Item")), 2)),
            field("count", primitive(TypeValue::Int)),
            field(
                "extra",
                FieldType::Dictionary(
                    Box::new(primitive(TypeValue::String)),
                    Box::new(FieldType::Union(
                        FieldArity::Optional,
                        vec![named("Item"), FieldType::Tuple(FieldArity::Required, vec![named("Tag"), named("Person")])],
                    )),
                ),
            ),
            field("home", FieldType::Identifier(FieldArity::Required, Identifier::ENV("HOME".to_string()))),
            field("path", FieldType::Identifier(FieldArity::Required, Identifier::Ref(vec!["a".to_string(), "B".to_string()]))),
        ],
        attributes: vec![],
        span: span(0),
    };
    let mut ctx = context();
    visit_class(ClassId(3), &c, &mut ctx);
    assert!(ctx.diagnostics.entries.is_empty());
    assert_eq!(ctx.types.class_dependencies.get(&3).unwrap(), &vec!["Person", "Item", "Tag", "a.B"]);
}

#[test]
fn template_strings_and_configurations() {
    let mut ctx = context();
    let good = TemplateString { name: "T".to_string(), params: vec![], value: raw("body"), span: span(1) };
    visit_template_string(baml::ast::TemplateStringId(2), &good, &mut ctx);
    assert_eq!(ctx.types.template_strings.get(&2).unwrap().template, "body");
    let bad = TemplateString { name: "U".to_string(), params: vec![], value: string("body"), span: span(2) };
    visit_template_string(baml::ast::TemplateStringId(3), &bad, &mut ctx);
    assert!(ctx.types.template_strings.get(&3).is_none());
    assert_eq!(
        errors(&ctx.diagnostics),
        vec![(ErrorKind::TypeMismatch, "Expected a raw string value, but received string value".to_string(), span(2))]
    );

    let mut ctx = context();
    let printer = Configuration::Printer(ConfigBlock {
        name: "P".to_string(),
        argument: Some("enum".to_string()),
        fields: vec![property("template", Some(string("one per line")), 0)],
        span: span(5),
    });
    visit_config(baml::ast::ConfigurationId(1), &printer, &mut ctx);
    match ctx.types.printers.get(&1).unwrap() {
        PrinterType::Enum(p) => assert_eq!(p.template, ("one per line".to_string(), span(200))),
        PrinterType::Type(_) => panic!("expected a printer for enums"),
    }
    let no_template = Configuration::Printer(ConfigBlock { name: "Q".to_string(), argument: None, fields: vec![], span: span(6) });
    visit_config(baml::ast::ConfigurationId(2), &no_template, &mut ctx);
    assert!(ctx.types.printers.get(&2).is_none());
    let retry = Configuration::RetryPolicy(ConfigBlock {
        name: "R".to_string(),
        argument: None,
        fields: vec![
            property("max_retries", Some(Expression::Numeric("3".to_string())), 0),
            property("delay_ms", Some(Expression::Numeric("50".to_string())), 1),
        ],
        span: span(7),
    });
    visit_config(baml::ast::ConfigurationId(3), &retry, &mut ctx);
    let policy = ctx.types.retry_policies.get(&3).unwrap();
    assert_eq!(policy.max_retries, 3);
    match &policy.strategy {
        RetryPolicyStrategy::ConstantDelay(s) => assert_eq!(s.delay_ms, 50),
        RetryPolicyStrategy::ExponentialBackoff(_) => panic!("expected a constant delay"),
    }
    let defaults = Configuration::RetryPolicy(ConfigBlock {
        name: "S".to_string(),
        argument: None,
        fields: vec![property("max_retries", Some(Expression::Numeric("1".to_string())), 0)],
        span: span(8),
    });
    visit_config(baml::ast::ConfigurationId(4), &defaults, &mut ctx);
    match &ctx.types.retry_policies.get(&4).unwrap().strategy {
        RetryPolicyStrategy::ConstantDelay(s) => assert_eq!(s.delay_ms, 200),
        RetryPolicyStrategy::ExponentialBackoff(_) => panic!("expected a constant delay"),
    }
    let broken = Configuration::RetryPolicy(ConfigBlock {
        name: "T".to_string(),
        argument: None,
        fields: vec![property("max_retries", Some(string("many")), 0)],
        span: span(9),
    });
    visit_config(baml::ast::ConfigurationId(5), &broken, &mut ctx);
    let missing = Configuration::RetryPolicy(ConfigBlock { name: "U".to_string(), argument: None, fields: vec![], span: span(11) });
    visit_config(baml::ast::ConfigurationId(6), &missing, &mut ctx);
    assert!(ctx.types.retry_policies.get(&5).is_none());
    assert!(ctx.types.retry_policies.get(&6).is_none());
    assert_eq!(
        errors(&ctx.diagnostics),
        vec![
            (ErrorKind::MissingField, "Missing `template` field".to_string(), span(6)),
            (ErrorKind::TypeMismatch, "Expected a int value, but received string value".to_string(), span(200)),
            (ErrorKind::MissingField, "Missing `max_retries` field".to_string(), span(11)),
        ]
    );
}

#[test]
fn enum_validation() {
    let db = database(vec![enumeration("Color", vec!["Red", "Green", "Red", "Red"]), enumeration("int", vec![])]);
    let mut d = Diagnostics::new();
    validate_enums(&db, &mut d);
    assert_eq!(
        errors(&d),
        vec![
            (ErrorKind::DuplicateField, "Duplicate value `Red` in `Color`".to_string(), span(32)),
            (ErrorKind::DuplicateField, "Duplicate value `Red` in `Color`".to_string(), span(33)),
            (
                ErrorKind::Validation,
                "`int` is a reserved word and cannot name a declaration".to_string(),
                span(40)
            ),
        ]
    );
}

#[test]
fn class_validation_reports_unknown_types_with_all_candidates() {
    let db = database(vec![
        enumeration("Color", vec![]),
        class(
            "Person",
            vec![
                field("name", primitive(TypeValue::String)),
                field("pet", FieldType::List(Box::new(named("Animal")), 1)),
                field("name", named("Color")),
            ],
        ),
        class("Team", vec![field("lead", optional("Person"))]),
    ]);
    let mut d = Diagnostics::new();
    validate_classes(&db, &mut d);
    assert_eq!(
        errors(&d),
        vec![
            (ErrorKind::DuplicateField, "Duplicate field `name` in `Person`".to_string(), span(10)),
            (ErrorKind::NotFound, "Type `Animal` does not exist.".to_string(), span(10)),
        ]
    );
    let not_found = &d.errors()[1];
    assert_eq!(not_found.names, vec!["Person", "Team", "Color", "string", "int", "float", "bool"]);
}

#[test]
fn two_cycle_is_reported() {
    let (db, found) = resolved(vec![
        class("A", vec![field("b", named("B"))]),
        class("B", vec![field("a", named("A"))]),
    ]);
    assert!(!found.has_errors());
    let mut d = Diagnostics::new();
    let reported = validate(&db, &mut d);
    assert_eq!(reported, vec![vec![0, 1]]);
    assert_eq!(cycle_names(&d), vec![vec!["A".to_string(), "B".to_string()]]);
    assert_eq!(
        errors(&d),
        vec![(ErrorKind::Cycle, "These classes form a dependency cycle: A -> B".to_string(), span(20))]
    );
}

#[test]
fn three_cycle_is_reported() {
    let (db, _) = resolved(vec![
        class("C", vec![field("a", named("A"))]),
        class("B", vec![field("c", named("C"))]),
        class("A", vec![field("b", named("B"))]),
    ]);
    let mut d = Diagnostics::new();
    let reported = validate(&db, &mut d);
    assert_eq!(reported, vec![vec![2, 1, 0]]);
    assert_eq!(cycle_names(&d), vec![vec!["A".to_string(), "B".to_string(), "C".to_string()]]);
}

#[test]
fn cycle_through_list_or_optional_is_reported() {
    let (db, _) = resolved(vec![class("Node", vec![field("children", FieldType::List(Box::new(named("Node")), 1))])]);
    let mut d = Diagnostics::new();
    assert_eq!(validate(&db, &mut d), vec![vec![0]]);
    assert_eq!(cycle_names(&d), vec![vec!["Node".to_string()]]);

    let (db, _) = resolved(vec![class("Node", vec![field("next", optional("Node"))])]);
    let mut d = Diagnostics::new();
    assert_eq!(validate(&db, &mut d), vec![vec![0]]);
}

#[test]
fn acyclic_schema_has_no_cycle_error() {
    let (db, _) = resolved(vec![
        enumeration("Color", vec!["Red"]),
        class("A", vec![field("b", named("B")), field("c", named("C")), field("color", named("Color"))]),
        class("B", vec![field("c", named("C"))]),
        class("C", vec![field("n", primitive(TypeValue::Int))]),
    ]);
    let mut d = Diagnostics::new();
    assert!(validate(&db, &mut d).is_empty());
    assert!(d.entries.is_empty());
}

#[test]
fn several_cycles_each_reported_once() {
    let (db, _) = resolved(vec![
        class("A", vec![field("b", named("B")), field("a", named("A"))]),
        class("B", vec![field("a", named("A")), field("c", named("C"))]),
        class("C", vec![field("b", named("B"))]),
    ]);
    let mut d = Diagnostics::new();
    let mut reported = validate_cycles(&db, &mut d);
    reported.sort();
    assert_eq!(reported, vec![vec![0], vec![0, 1], vec![1, 2]]);
    assert_eq!(d.errors().len(), 3);
}

#[test]
fn cycle_search_is_skipped_after_structural_errors() {
    let (db, _) = resolved(vec![
        class("A", vec![field("b", named("B")), field("b", named("B"))]),
        class("B", vec![field("a", named("A"))]),
    ]);
    let mut d = Diagnostics::new();
    assert!(validate(&db, &mut d).is_empty());
    assert_eq!(
        errors(&d),
        vec![(ErrorKind::DuplicateField, "Duplicate field `b` in `A`".to_string(), span(10))]
    );
}

#[test]
fn graph_cycles() {
    assert!(find_cycles(&vec![]).is_empty());
    assert!(find_cycles(&vec![vec![1, 2], vec![2], vec![]]).is_empty());
    assert_eq!(find_cycles(&vec![vec![0]]), vec![vec![0]]);
    assert_eq!(find_cycles(&vec![vec![1], vec![2], vec![0]]), vec![vec![0, 1, 2]]);
    assert_eq!(find_cycles(&vec![vec![1], vec![], vec![3], vec![2]]), vec![vec![2, 3]]);
    assert_eq!(find_cycles(&vec![vec![1, 1], vec![0, 0]]), vec![vec![0, 1], vec![0, 1]]);
}

#[test]
fn validate_file_merges_in_order_and_stops_at_errors() {
    let mut parse_warning = Diagnostics::new();
    parse_warning.push_warning(DatamodelWarning::new("odd".to_string(), span(1)));
    let schema = validate_file(vec![
        ParsedFile::Parsed(SchemaAst { tops: vec![class("A", vec![field("b", named("B"))])] }, parse_warning),
        ParsedFile::Parsed(SchemaAst { tops: vec![class("B", vec![field("a", named("A"))])] }, Diagnostics::new()),
    ]);
    let names: Vec<&str> = schema.db.ast().tops.iter().map(|t| t.name()).collect();
    assert_eq!(names, vec!["A", "B"]);
    assert_eq!(warnings(&schema.diagnostics), vec![("odd".to_string(), span(1))]);
    assert_eq!(cycle_names(&schema.diagnostics), vec![vec!["A".to_string(), "B".to_string()]]);

    let mut syntax = Diagnostics::new();
    syntax.push_error(DatamodelError::new(ErrorKind::Syntax, "unexpected token".to_string(), span(2)));
    let mut second = Diagnostics::new();
    second.push_error(DatamodelError::new(ErrorKind::Syntax, "unterminated".to_string(), span(3)));
    let failed = validate_file(vec![
        ParsedFile::Failed(syntax),
        ParsedFile::Parsed(SchemaAst { tops: vec![class("A", vec![field("a", named("A"))])] }, Diagnostics::new()),
        ParsedFile::Failed(second),
    ]);
    assert_eq!(
        errors(&failed.diagnostics),
        vec![
            (ErrorKind::Syntax, "unexpected token".to_string(), span(2)),
            (ErrorKind::Syntax, "unterminated".to_string(), span(3)),
        ]
    );
    assert!(failed.db.types.class_dependencies.is_empty());

    let invalid = validate_file(vec![ParsedFile::Parsed(
        SchemaAst { tops: vec![Top::Variant(variant(vec![], vec![])), class("A", vec![field("a", named("A"))])] },
        Diagnostics::new(),
    )]);
    assert_eq!(invalid.diagnostics.errors().len(), 2);
    assert!(cycle_names(&invalid.diagnostics).is_empty());
}
