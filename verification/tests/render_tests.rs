use baml::ast::{
    Attribute, Class, Enum, EnumValue, Expression, Field, FieldArity, FieldType, Identifier,
    RawString, SchemaAst, TemplateString, TypeValue,
};
use baml::baml_context::{BamlContext, ContextError};
use baml::diagnostics::{DatamodelError, DatamodelWarning, Diagnostics, ErrorKind, Span};
use baml::ir::IRHelper;
use baml::parser_database::ParserDatabase;
use baml::pretty_print::{format_line_number, format_line_number_with_line, pretty_print};
use baml::repr::IntermediateRepr;
use baml::resolve::{Environment, ResolveError};
use baml::schema::{validate_file, ParsedFile};
use baml::semantic::SemanticType;
use baml::source_file::SourceFile;
use baml::top::Top;

fn span(start: usize, end: usize) -> Span {
    Span::new(0, start, end)
}

fn attribute(name: &str, arguments: Vec<Expression>) -> Attribute {
    Attribute { name: name.to_string(), arguments, span: span(0, 0) }
}

fn string(s: &str) -> Expression {
    Expression::String(s.to_string())
}

fn primitive(kind: TypeValue) -> FieldType {
    FieldType::Identifier(FieldArity::Required, Identifier::Primitive(kind))
}

fn named(name: &str) -> FieldType {
    FieldType::Identifier(FieldArity::Required, Identifier::Local(name.to_string()))
}

fn sample_tops() -> Vec<Top> {
    vec![
        Top::Enum(Enum {
            name: "Color".to_string(),
            values: vec![
                EnumValue {
                    name: "Red".to_string(),
                    attributes: vec![
                        attribute("alias", vec![string("rouge")]),
                        attribute("description", vec![string("like fire")]),
                    ],
                    span: span(1, 2),
                },
                EnumValue {
                    name: "Green".to_string(),
                    attributes: vec![attribute("skip", vec![])],
                    span: span(2, 3),
                },
                EnumValue {
                    name: "Blue".to_string(),
                    attributes: vec![
                        attribute("skip", vec![Expression::Identifier(Identifier::ENV("HIDE_BLUE".to_string()))]),
                        attribute("alias", vec![Expression::Identifier(Identifier::ENV("BLUE_NAME".to_string()))]),
                    ],
                    span: span(3, 4),
                },
            ],
            attributes: vec![attribute("alias", vec![string("Colour")])],
            span: span(0, 5),
        }),
        Top::Class(Class {
            name: "Person".to_string(),
            fields: vec![
                Field {
                    name: "name".to_string(),
                    field_type: primitive(TypeValue::String),
                    attributes: vec![
                        attribute("description", vec![string("full name")]),
                        attribute("description", vec![string("ignored")]),
                    ],
                    span: span(6, 7),
                },
                Field {
                    name: "favourite".to_string(),
                    field_type: FieldType::Identifier(FieldArity::Optional, Identifier::Local("Color".to_string())),
                    attributes: vec![],
                    span: span(7, 8),
                },
            ],
            attributes: vec![],
            span: span(5, 9),
        }),
        Top::TemplateString(TemplateString {
            name: "Greeting".to_string(),
            params: vec![Field { name: "who".to_string(), field_type: named("Person"), attributes: vec![], span: span(0, 0) }],
            value: Expression::RawString(RawString::new("Hello {{ who.name }}".to_string(), span(0, 0))),
            span: span(9, 10),
        }),
        Top::Class(Class { name: "Empty".to_string(), fields: vec![], attributes: vec![], span: span(10, 11) }),
    ]
}

fn database(tops: Vec<Top>) -> ParserDatabase {
    let mut db = ParserDatabase::new();
    db.add_ast(SchemaAst { tops });
    db
}

#[test]
fn line_number_gutters() {
    assert_eq!(format_line_number(0), "   | ");
    assert_eq!(format_line_number(1), " 1 | ");
    assert_eq!(format_line_number(9), " 9 | ");
    assert_eq!(format_line_number(10), "10 | ");
    assert_eq!(format_line_number(123), "123 | ");
}

#[test]
fn line_number_with_line() {
    let lines = ["first", "second"];
    assert_eq!(format_line_number_with_line(0, &lines), "   | ");
    assert_eq!(format_line_number_with_line(1, &lines), " 1 | first");
    assert_eq!(format_line_number_with_line(2, &lines), " 2 | second");
    assert_eq!(format_line_number_with_line(3, &lines), " 3 | ");
}

#[test]
fn pretty_print_single_line_span() {
    let file = SourceFile::new_static("class A {\n  b B\n}\n");
    // the span covers `B` on the second line
    let got = pretty_print(&file, &span(14, 15), "Type `B` does not exist.");
    let want = ": Type `B` does not exist.\n  -->  line 2\n   | \n 2 |   b B\n   | \n";
    assert_eq!(got, want);
}

#[test]
fn pretty_print_first_line_and_many_lines() {
    let file = SourceFile::new_static("one\ntwo\nthree\nfour");
    assert_eq!(
        pretty_print(&file, &span(0, 2), "d"),
        ": d\n  -->  line 1\n   | \n 1 | one\n   | \n"
    );
    assert_eq!(
        pretty_print(&file, &span(5, 15), "d"),
        ": d\n  -->  line 2\n   | \n 2 | two\n 3 | three\n 4 | four\n   | \n"
    );
}

#[test]
fn pretty_print_counts_bytes_for_offsets() {
    // `ä` takes two bytes: byte offset 5 is the start of the second line
    let file = SourceFile::new_static("äöx\ny");
    assert_eq!(
        pretty_print(&file, &span(6, 7), "d"),
        ": d\n  -->  line 2\n   | \n 2 | y\n   | \n"
    );
    assert_eq!(
        pretty_print(&file, &span(4, 5), "d"),
        ": d\n  -->  line 1\n   | \n 1 | äöx\n   | \n"
    );
}

#[test]
fn diagnostics_report() {
    let files = vec![SourceFile::new_static("a\nb\n")];
    let mut d = Diagnostics::new();
    d.push_error(DatamodelError::new(ErrorKind::Validation, "bad b".to_string(), span(2, 3)));
    d.push_warning(DatamodelWarning::new("odd a".to_string(), span(0, 1)));
    assert_eq!(
        d.to_pretty_string(&files),
        "error: bad b\n  -->  line 2\n   | \n 2 | b\n   | \nwarning: odd a\n  -->  line 1\n   | \n 1 | a\n   | \n"
    );
    assert_eq!(Diagnostics::new().to_pretty_string(&files), "");
}

#[test]
fn model_find_by_name() {
    let db = database(sample_tops());
    let ir = IntermediateRepr::from_parser_database(&db);
    assert_eq!(ir.find_enum("Color").unwrap().name(), "Color");
    assert_eq!(ir.find_class("Person").unwrap().name(), "Person");
    assert_eq!(ir.find_class("Empty").unwrap().name(), "Empty");
    assert_eq!(ir.find_template_string("Greeting").unwrap().name(), "Greeting");

    let e = ir.find_enum("Person").unwrap_err();
    assert_eq!((e.kind.as_str(), e.needle.as_str()), ("enum", "Person"));
    assert_eq!(e.candidates, vec!["Color"]);
    assert_eq!(e.message(), "Could not find enum `Person`");
    let e = ir.find_class("Color").unwrap_err();
    assert_eq!((e.kind.as_str(), e.needle.as_str()), ("class", "Color"));
    assert_eq!(e.candidates, vec!["Person", "Empty"]);
    let e = ir.find_template_string("Missing").unwrap_err();
    assert_eq!((e.kind.as_str(), e.needle.as_str()), ("template string", "Missing"));
    assert_eq!(e.candidates, vec!["Greeting"]);

    let empty = database(vec![]);
    let none = IntermediateRepr::from_parser_database(&empty);
    assert!(none.find_class("A").unwrap_err().candidates.is_empty());
}

#[test]
fn model_walkers() {
    let db = database(sample_tops());
    let ir = IntermediateRepr::from_parser_database(&db);
    let mut env = Environment::new();
    env.insert("HIDE_BLUE".to_string(), "".to_string());

    let color = ir.find_enum("Color").unwrap();
    assert_eq!(color.alias(&env), Ok(Some("Colour".to_string())));
    assert_eq!(color.span(), Some(span(0, 5)));
    assert_eq!(color.elem().values.len(), 3);
    let values = color.walk_values();
    let names: Vec<&str> = values.iter().map(|v| v.name()).collect();
    assert_eq!(names, vec!["Red", "Green", "Blue"]);
    assert_eq!(values[0].alias(&env), Ok(Some("rouge".to_string())));
    assert_eq!(values[0].description(&env), Ok(Some("like fire".to_string())));
    assert_eq!(values[0].skip(&env), Ok(false));
    assert_eq!(values[1].alias(&env), Ok(None));
    assert_eq!(values[1].description(&env), Ok(None));
    assert_eq!(values[1].skip(&env), Ok(true));
    assert_eq!(values[2].skip(&env), Ok(true));
    assert_eq!(values[2].skip(&Environment::new()), Ok(false));
    assert_eq!(values[2].alias(&env), Err(ResolveError::EnvVarNotFound("BLUE_NAME".to_string())));
    assert_eq!(color.find_value("Green").map(|v| v.name()), Some("Green"));
    assert!(color.find_value("Purple").is_none());

    let person = ir.find_class("Person").unwrap();
    assert_eq!(person.alias(&env), Ok(None));
    assert_eq!(person.span(), Some(span(5, 9)));
    assert_eq!(person.elem().static_fields.len(), 2);
    let fields = person.walk_fields();
    let names: Vec<&str> = fields.iter().map(|f| f.name()).collect();
    assert_eq!(names, vec!["name", "favourite"]);
    assert_eq!(fields[0].field_type(), &SemanticType::Primitive(TypeValue::String));
    assert_eq!(fields[0].description(&env), Ok(Some("full name".to_string())));
    assert_eq!(fields[0].alias(&env), Ok(None));
    assert_eq!(fields[0].span(), Some(span(6, 7)));
    assert_eq!(fields[0].elem().name, "name");
    assert_eq!(
        fields[1].field_type(),
        &SemanticType::Optional(Box::new(SemanticType::Enum("Color".to_string())))
    );
    assert_eq!(person.find_field("favourite").map(|f| f.name()), Some("favourite"));
    assert!(person.find_field("age").is_none());

    let greeting = ir.find_template_string("Greeting").unwrap();
    assert_eq!(greeting.template(), "Hello {{ who.name }}");
    assert_eq!(greeting.inputs().len(), 1);
    assert_eq!(greeting.inputs()[0].name, "who");
    assert_eq!(greeting.inputs()[0].field_type.elem, SemanticType::Class("Person".to_string()));
    assert_eq!(greeting.span(), Some(span(9, 10)));
    assert_eq!(greeting.elem().name, "Greeting");

    assert_eq!(ir.walk_enums().len(), 1);
    assert_eq!(ir.walk_classes().len(), 2);
    assert_eq!(ir.walk_template_strings().len(), 1);
}

#[test]
fn context_targets_and_descriptions() {
    let files = vec![SourceFile::new_static("")];
    let schema = validate_file(vec![ParsedFile::Parsed(SchemaAst { tops: sample_tops() }, Diagnostics::new())]);
    let ctx = BamlContext::try_from_schema(schema, &files, None).expect("context");
    assert_eq!(ctx.target, SemanticType::Class("Person".to_string()));
    assert_eq!(ctx.format.target, SemanticType::Class("Person".to_string()));
    assert_eq!(ctx.format.enums.len(), 1);
    assert_eq!(ctx.format.enums[0].name, "Color");
    assert_eq!(
        ctx.format.enums[0].values,
        vec![
            ("Red".to_string(), Some("like fire".to_string())),
            ("Green".to_string(), None),
            ("Blue".to_string(), None),
        ]
    );
    assert_eq!(ctx.format.classes.len(), 2);
    assert_eq!(ctx.format.classes[0].name, "Person");
    assert_eq!(
        ctx.format.classes[0].fields,
        vec![
            ("name".to_string(), SemanticType::Primitive(TypeValue::String), Some("full name".to_string())),
            (
                "favourite".to_string(),
                SemanticType::Optional(Box::new(SemanticType::Enum("Color".to_string()))),
                None
            ),
        ]
    );
    assert!(ctx.format.classes[1].fields.is_empty());

    let schema = validate_file(vec![ParsedFile::Parsed(SchemaAst { tops: sample_tops() }, Diagnostics::new())]);
    let ctx = BamlContext::try_from_schema(schema, &files, Some("Color".to_string())).expect("context");
    assert_eq!(ctx.target, SemanticType::Enum("Color".to_string()));

    let schema = validate_file(vec![ParsedFile::Parsed(SchemaAst { tops: sample_tops() }, Diagnostics::new())]);
    match BamlContext::try_from_schema(schema, &files, Some("Missing".to_string())) {
        Err(ContextError::UnknownTarget(name)) => assert_eq!(name, "Missing"),
        other => panic!("expected an unknown target, got {:?}", other.map(|_| ())),
    }

    let only_enum = vec![sample_tops().remove(0)];
    let schema = validate_file(vec![ParsedFile::Parsed(SchemaAst { tops: only_enum }, Diagnostics::new())]);
    let ctx = BamlContext::try_from_schema(schema, &files, None).expect("context");
    assert_eq!(ctx.target, SemanticType::Enum("Color".to_string()));

    let schema = validate_file(vec![]);
    assert!(matches!(BamlContext::try_from_schema(schema, &files, None), Err(ContextError::NoTarget)));
}

#[test]
fn context_refuses_a_schema_with_errors() {
    let files = vec![SourceFile::new_static("class A {\n  a A\n}")];
    let tops = vec![Top::Class(Class {
        name: "A".to_string(),
        fields: vec![Field { name: "a".to_string(), field_type: named("A"), attributes: vec![], span: span(12, 15) }],
        attributes: vec![],
        span: span(0, 17),
    })];
    let schema = validate_file(vec![ParsedFile::Parsed(SchemaAst { tops }, Diagnostics::new())]);
    match BamlContext::try_from_schema(schema, &files, None) {
        Err(ContextError::InvalidSchema(report)) => assert_eq!(
            report,
            "error: These classes form a dependency cycle: A\n  -->  line 1\n   | \n 1 | class A {\n 2 |   a A\n 3 | }\n   | \n"
        ),
        other => panic!("expected an invalid schema, got {:?}", other.map(|_| ())),
    }
}
