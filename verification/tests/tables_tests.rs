use baml::ast::{
    Attribute, Class, ConfigBlock, ConfigBlockProperty, Configuration, Enum, EnumValue, Expression,
    Field, FieldArity, FieldType, Identifier, RawString, SchemaAst, Serializer, SerializerField,
    TypeValue, Variant, ClassId, EnumId, FieldId, EnumValueId,
};
use baml::attributes::{resolve_attributes, to_string_attributes};
use baml::context::Context;
use baml::diagnostics::{Diagnostics, ErrorKind, Span};
use baml::prompt::{ChatBlock, PrinterBlock, PromptAst, PromptVariable, Variable};
use baml::schema::{validate_file, ParsedFile};
use baml::top::Top;
use baml::types::{RefinedFieldId, ToStringAttributes, Types};
use baml::visit::visit_config;

fn span(n: usize) -> Span {
    Span::new(0, n, n + 1)
}

fn attribute(name: &str, arguments: Vec<Expression>) -> Attribute {
    Attribute { name: name.to_string(), arguments, span: span(0) }
}

fn string(s: &str) -> Expression {
    Expression::String(s.to_string())
}

fn env(s: &str) -> Expression {
    Expression::Identifier(Identifier::ENV(s.to_string()))
}

fn property(name: &str, value: Expression, n: usize) -> ConfigBlockProperty {
    ConfigBlockProperty {
        name: name.to_string(),
        template_args: None,
        value: Some(value),
        key_span: span(100 + n),
        value_span: span(200 + n),
        span: span(300 + n),
    }
}

fn variable(text: &str) -> Variable {
    Variable { path: vec![], text: text.to_string(), span: span(0) }
}

#[test]
fn undecorated_item_has_no_record() {
    assert!(to_string_attributes(&vec![]).is_none());
    assert!(to_string_attributes(&vec![attribute("other", vec![string("x")])]).is_none());
    assert!(to_string_attributes(&vec![attribute("alias", vec![])]).is_none());
}

#[test]
fn fixed_decorations_give_a_static_record() {
    let attrs = vec![
        attribute("description", vec![string("what it is")]),
        attribute("alias", vec![string("other name")]),
        attribute("alias", vec![string("ignored")]),
        attribute("skip", vec![]),
    ];
    match to_string_attributes(&attrs) {
        Some(ToStringAttributes::Static(s)) => {
            assert_eq!(s.alias, Some("other name".to_string()));
            assert_eq!(s.skip, Some(true));
            assert_eq!(s.meta, vec![("description".to_string(), "what it is".to_string())]);
        }
        other => panic!("expected a static record, got {:?}", other),
    }
    match to_string_attributes(&vec![attribute("skip", vec![Expression::Bool(false)])]) {
        Some(ToStringAttributes::Static(s)) => {
            assert_eq!(s.alias, None);
            assert_eq!(s.skip, Some(false));
            assert!(s.meta.is_empty());
        }
        other => panic!("expected a static record, got {:?}", other),
    }
}

#[test]
fn decorations_that_need_the_environment_give_a_dynamic_record() {
    let attrs = vec![
        attribute("skip", vec![]),
        attribute("alias", vec![env("NAME")]),
        attribute("description", vec![string("fixed")]),
    ];
    match to_string_attributes(&attrs) {
        Some(ToStringAttributes::Dynamic(d)) => {
            let keys: Vec<&str> = d.code.iter().map(|(k, _)| k.as_str()).collect();
            assert_eq!(keys, vec!["alias", "description", "skip"]);
            assert_eq!(d.code[0].1, env("NAME"));
            assert_eq!(d.code[1].1, string("fixed"));
            assert_eq!(d.code[2].1, Expression::Bool(true));
        }
        other => panic!("expected a dynamic record, got {:?}", other),
    }
    match to_string_attributes(&vec![attribute("skip", vec![env("HIDE")])]) {
        Some(ToStringAttributes::Dynamic(d)) => assert_eq!(d.code, vec![("skip".to_string(), env("HIDE"))]),
        other => panic!("expected a dynamic record, got {:?}", other),
    }
}

#[test]
fn attribute_tables_by_position() {
    let tops = vec![
        Top::Class(Class {
            name: "Person".to_string(),
            fields: vec![
                Field {
                    name: "name".to_string(),
                    field_type: FieldType::Identifier(FieldArity::Required, Identifier::Primitive(TypeValue::String)),
                    attributes: vec![attribute("alias", vec![string("full_name")])],
                    span: span(1),
                },
                Field {
                    name: "age".to_string(),
                    field_type: FieldType::Identifier(FieldArity::Required, Identifier::Primitive(TypeValue::Int)),
                    attributes: vec![],
                    span: span(2),
                },
                Field {
                    name: "secret".to_string(),
                    field_type: FieldType::Identifier(FieldArity::Required, Identifier::Primitive(TypeValue::String)),
                    attributes: vec![attribute("alias", vec![env("SECRET_NAME")])],
                    span: span(3),
                },
            ],
            attributes: vec![attribute("description", vec![string("a person")])],
            span: span(4),
        }),
        Top::Enum(Enum {
            name: "Color".to_string(),
            values: vec![
                EnumValue { name: "Red".to_string(), attributes: vec![attribute("skip", vec![env("NO_RED")])], span: span(5) },
                EnumValue { name: "Green".to_string(), attributes: vec![], span: span(6) },
            ],
            attributes: vec![],
            span: span(7),
        }),
        Top::Variant(Variant {
            name: "v1".to_string(),
            function_name: "F".to_string(),
            variant_type: "llm".to_string(),
            fields: vec![],
            serializers: vec![Serializer {
                name: "Person".to_string(),
                fields: vec![SerializerField {
                    name: "name".to_string(),
                    attributes: vec![attribute("alias", vec![string("n")])],
                    span: span(8),
                }],
                attributes: vec![attribute("alias", vec![string("P")])],
                span: span(9),
            }],
            adapters: vec![],
            prompt_markers: Ok(vec![]),
            name_span: span(10),
            span: span(10),
        }),
    ];
    let ast = SchemaAst { tops };
    let mut ctx = Context { types: Types::new(), diagnostics: Diagnostics::new() };
    resolve_attributes(&mut ctx, &ast);
    assert!(ctx.diagnostics.entries.is_empty());
    let person = ctx.types.class_attributes.get(&0).expect("class record");
    assert!(matches!(person.serilizer, Some(ToStringAttributes::Static(_))));
    assert!(matches!(person.field_serilizers.get(&0), Some(ToStringAttributes::Static(_))));
    assert!(person.field_serilizers.get(&1).is_none());
    assert!(matches!(person.field_serilizers.get(&2), Some(ToStringAttributes::Dynamic(_))));
    let color = ctx.types.enum_attributes.get(&1).expect("enum record");
    assert!(color.serilizer.is_none());
    assert!(matches!(color.value_serilizers.get(&0), Some(ToStringAttributes::Dynamic(_))));
    assert!(color.value_serilizers.get(&1).is_none());
    let variant = ctx.types.variant_attributes.get(&2).expect("variant record");
    let serializer = variant.serializers.get(&0).expect("serializer record");
    assert!(matches!(serializer.serilizer, Some(ToStringAttributes::Static(_))));
    assert!(matches!(serializer.field_serilizers.get(&0), Some(ToStringAttributes::Static(_))));

    assert!(matches!(ctx.types.refine_class_field(ClassId(0), FieldId(0)), RefinedFieldId::Static(_)));
    assert!(matches!(ctx.types.refine_class_field(ClassId(0), FieldId(2)), RefinedFieldId::Dynamic(_)));
    assert!(matches!(ctx.types.refine_enum_value(EnumId(1), EnumValueId(0)), RefinedFieldId::Dynamic(_)));
    assert!(matches!(ctx.types.refine_enum_value(EnumId(1), EnumValueId(1)), RefinedFieldId::Static(_)));
}

#[test]
fn test_cases_record_functions_and_arguments() {
    let block = ConfigBlock {
        name: "T".to_string(),
        argument: None,
        fields: vec![
            property(
                "functions",
                Expression::List(vec![
                    Expression::Identifier(Identifier::Local("Extract".to_string())),
                    Expression::Numeric("1".to_string()),
                    string("Classify"),
                ]),
                0,
            ),
            property(
                "args",
                Expression::Mapping(vec![
                    (string("text"), string("hello")),
                    (Expression::Bool(true), string("dropped")),
                    (Expression::Identifier(Identifier::Local("n".to_string())), Expression::List(vec![Expression::Numeric("2".to_string())])),
                ]),
                1,
            ),
        ],
        span: span(9),
    };
    let mut ctx = Context { types: Types::new(), diagnostics: Diagnostics::new() };
    visit_config(baml::ast::ConfigurationId(3), &Configuration::TestCase(block), &mut ctx);
    let got: Vec<(ErrorKind, String, Span)> =
        ctx.diagnostics.errors().iter().map(|e| (e.kind, e.message().to_string(), e.span())).collect();
    assert_eq!(
        got,
        vec![
            (ErrorKind::TypeMismatch, "Expected a string value, but received numeric value".to_string(), span(200)),
            (ErrorKind::TypeMismatch, "Expected a string value, but received boolean value".to_string(), span(201)),
        ]
    );
    let case = ctx.types.test_cases.get(&3).expect("test case");
    assert_eq!(case.functions, vec![("Extract".to_string(), span(200)), ("Classify".to_string(), span(200))]);
    assert_eq!(case.args.len(), 2);
    assert_eq!(case.args.get_index(0), Some((&"text".to_string(), &(span(201), string("hello")))));
    assert_eq!(
        case.args.get_index(1),
        Some((&"n".to_string(), &(span(201), Expression::List(vec![Expression::Numeric("2".to_string())]))))
    );
    assert_eq!(case.args_field_span, span(201));

    let empty = ConfigBlock { name: "U".to_string(), argument: None, fields: vec![], span: span(12) };
    let mut ctx = Context { types: Types::new(), diagnostics: Diagnostics::new() };
    visit_config(baml::ast::ConfigurationId(0), &Configuration::TestCase(empty), &mut ctx);
    assert_eq!(ctx.diagnostics.errors().len(), 1);
    assert_eq!(ctx.diagnostics.errors()[0].message(), "Missing `functions` field");
    let case = ctx.types.test_cases.get(&0).unwrap();
    assert!(case.functions.is_empty() && case.args.is_empty());
    assert_eq!(case.args_field_span, span(12));

    let wrong = ConfigBlock {
        name: "W".to_string(),
        argument: None,
        fields: vec![property("functions", string("F"), 0), property("args", string("a"), 1)],
        span: span(13),
    };
    let mut ctx = Context { types: Types::new(), diagnostics: Diagnostics::new() };
    visit_config(baml::ast::ConfigurationId(0), &Configuration::TestCase(wrong), &mut ctx);
    let messages: Vec<String> = ctx.diagnostics.errors().iter().map(|e| e.message().to_string()).collect();
    assert_eq!(
        messages,
        vec![
            "Expected a array value, but received string value",
            "Expected a map value, but received string value",
        ]
    );
}

#[test]
fn validated_schema_links_prompts_and_walks_variants() {
    let prompt = "\n system\nYou describe {#type}.\n user\nDescribe {#input} briefly.";
    let variant = Variant {
        name: "v1".to_string(),
        function_name: "Describe".to_string(),
        variant_type: "llm".to_string(),
        fields: vec![
            property("client", string("GPT4"), 0),
            property("prompt", Expression::RawString(RawString::new(prompt.to_string(), span(50))), 1),
        ],
        serializers: vec![Serializer {
            name: "Thing".to_string(),
            fields: vec![SerializerField { name: "label".to_string(), attributes: vec![attribute("alias", vec![string("l")])], span: span(0) }],
            attributes: vec![attribute("alias", vec![string("T")])],
            span: span(0),
        }],
        adapters: vec![],
        prompt_markers: Ok(vec![
            PromptVariable::Chat(ChatBlock { role: "system".to_string(), span: span(0) }),
            PromptVariable::Type(PrinterBlock { printer: Some("Short".to_string()), target: variable("{#type}") }),
            PromptVariable::Chat(ChatBlock { role: "user".to_string(), span: span(0) }),
            PromptVariable::Input(variable("{#input}")),
            PromptVariable::Input(variable("{#unused}")),
        ]),
        name_span: span(60),
        span: span(61),
    };
    let printer = Configuration::Printer(ConfigBlock {
        name: "Short".to_string(),
        argument: None,
        fields: vec![property("template", string("things"), 0)],
        span: span(70),
    });
    let tops = vec![
        Top::Class(Class { name: "Thing".to_string(), fields: vec![], attributes: vec![], span: span(80) }),
        Top::Variant(variant),
        Top::Config(printer),
    ];
    let schema = validate_file(vec![ParsedFile::Parsed(SchemaAst { tops }, Diagnostics::new())]);
    assert!(!schema.diagnostics.has_errors());

    let variants = schema.db.walk_variants();
    assert_eq!(variants.len(), 1);
    let walker = &variants[0];
    assert_eq!(walker.variant_id().0, 1);
    assert_eq!(walker.function_identifier(), Identifier::Local("Describe".to_string()));
    assert_eq!(walker.identifier(), Identifier::Local("v1".to_string()));
    assert_eq!(walker.span(), span(61));
    assert_eq!(walker.ast_variant().fields.len(), 2);
    let properties = walker.properties();
    assert_eq!(properties.client.value, "GPT4");
    let inputs: Vec<(String, &str)> = properties.replacers.0.iter().map(|(v, t)| (v.key(), t.as_str())).collect();
    assert_eq!(inputs, vec![("{#input}".to_string(), "{#input}"), ("{#unused}".to_string(), "{#unused}")]);
    let printers: Vec<(String, &str)> = properties.replacers.1.iter().map(|(b, t)| (b.key(), t.as_str())).collect();
    assert_eq!(printers, vec![("Short.{#type}".to_string(), "things")]);
    let chats: Vec<&str> = properties.replacers.2.iter().map(|c| c.role.as_str()).collect();
    assert_eq!(chats, vec!["system", "user"]);

    match walker.to_prompt() {
        PromptAst::Chat(parts, used) => {
            let got: Vec<(Option<&str>, &str)> =
                parts.iter().map(|(c, t)| (c.map(|c| c.role.as_str()), t.as_str())).collect();
            assert_eq!(
                got,
                vec![(Some("system"), "You describe {#type}."), (Some("user"), "Describe {#input} briefly.")]
            );
            assert_eq!(used, vec![("{#input}".to_string(), "{#input}".to_string())]);
        }
        PromptAst::String(..) => panic!("expected a prompt in parts"),
    }

    assert!(matches!(walker.find_serializer_attributes("Thing"), Some(ToStringAttributes::Static(_))));
    assert!(walker.find_serializer_attributes("Other").is_none());
    assert!(matches!(
        walker.find_serializer_field_attributes("Thing", "label"),
        Some(ToStringAttributes::Static(_))
    ));
    assert!(walker.find_serializer_field_attributes("Thing", "missing").is_none());
    assert!(walker.find_serializer_field_attributes("Other", "label").is_none());

    let printer = schema.db.find_printer("Short").expect("printer");
    assert_eq!(printer.printer().template(), "things");
    assert_eq!(printer.identifier(), Identifier::Local("Short".to_string()));
    assert_eq!(printer.span(), span(70));
}

#[test]
fn configuration_walkers_read_their_tables() {
    let retry = Configuration::RetryPolicy(ConfigBlock {
        name: "Retry".to_string(),
        argument: None,
        fields: vec![property("max_retries", Expression::Numeric("2".to_string()), 0)],
        span: span(1),
    });
    let test = Configuration::TestCase(ConfigBlock {
        name: "Case".to_string(),
        argument: None,
        fields: vec![property("functions", Expression::List(vec![string("F")]), 0)],
        span: span(2),
    });
    let schema = validate_file(vec![ParsedFile::Parsed(
        SchemaAst { tops: vec![Top::Config(retry), Top::Config(test)] },
        Diagnostics::new(),
    )]);
    assert!(!schema.diagnostics.has_errors());
    let policy = schema.db.find_retry_policy("Retry").expect("retry policy");
    assert_eq!(policy.retry_policy().max_retries, 2);
    let case = schema.db.walk((baml::ast::ConfigurationId(1), "test"));
    assert_eq!(case.test_case().functions.len(), 1);
    assert_eq!(case.ast_node().get_type(), "test");
}

#[test]
fn a_test_argument_named_twice_keeps_its_place_and_takes_the_later_value() {
    let block = ConfigBlock {
        name: "T".to_string(),
        argument: None,
        fields: vec![
            property("functions", Expression::List(vec![string("F")]), 0),
            property(
                "args",
                Expression::Mapping(vec![
                    (string("a"), string("first")),
                    (string("b"), string("other")),
                    (string("a"), string("second")),
                ]),
                1,
            ),
        ],
        span: span(9),
    };
    let mut ctx = Context { types: Types::new(), diagnostics: Diagnostics::new() };
    visit_config(baml::ast::ConfigurationId(0), &Configuration::TestCase(block), &mut ctx);
    assert!(ctx.diagnostics.entries.is_empty());
    let case = ctx.types.test_cases.get(&0).expect("test case");
    assert_eq!(case.args.len(), 2);
    assert_eq!(case.args.get_index(0), Some((&"a".to_string(), &(span(201), string("second")))));
    assert_eq!(case.args.get_index(1), Some((&"b".to_string(), &(span(201), string("other")))));
}

#[test]
fn a_marker_located_twice_is_linked_once() {
    let variant = Variant {
        name: "v1".to_string(),
        function_name: "Describe".to_string(),
        variant_type: "llm".to_string(),
        fields: vec![
            property("client", string("GPT4"), 0),
            property(
                "prompt",
                Expression::RawString(RawString::new("{#input} and {#input}, {#type} and {#type}".to_string(), span(50))),
                1,
            ),
        ],
        serializers: vec![],
        adapters: vec![],
        prompt_markers: Ok(vec![
            PromptVariable::Input(variable("{#input}")),
            PromptVariable::Type(PrinterBlock { printer: None, target: variable("{#type}") }),
            PromptVariable::Input(variable("{#input}")),
            PromptVariable::Enum(PrinterBlock { printer: None, target: variable("{#type}") }),
        ]),
        name_span: span(60),
        span: span(61),
    };
    let schema = validate_file(vec![ParsedFile::Parsed(SchemaAst { tops: vec![Top::Variant(variant)] }, Diagnostics::new())]);
    assert!(!schema.diagnostics.has_errors());
    let variants = schema.db.walk_variants();
    let properties = variants[0].properties();
    assert_eq!(properties.prompt_replacements.len(), 4);
    let inputs: Vec<String> = properties.replacers.0.iter().map(|(v, _)| v.key()).collect();
    assert_eq!(inputs, vec!["{#input}"]);
    let printers: Vec<String> = properties.replacers.1.iter().map(|(b, _)| b.key()).collect();
    assert_eq!(printers, vec!["{#type}"]);
    match variants[0].to_prompt() {
        PromptAst::String(text, used) => {
            assert_eq!(text, "{#input} and {#input}, {#type} and {#type}");
            assert_eq!(used, vec![("{#input}".to_string(), "{#input}".to_string())]);
        }
        PromptAst::Chat(..) => panic!("expected a prompt in one piece"),
    }
}
