use baml::ast::{
    Attribute, Class, ConfigBlock, ConfigBlockProperty, Configuration, Enum, EnumValue, Expression,
    Field, FieldArity, FieldType, Identifier, SchemaAst, TemplateString, TypeValue, Variant,
    RawString,
};
use baml::diagnostics::Span;
use baml::parser_database::ParserDatabase;
use baml::semantic::{JinjaType, SemanticType};
use baml::top::{Top, TopKind};
use baml::walkers::TypeWalker;

fn span(n: usize) -> Span {
    Span::new(0, n, n + 1)
}

fn named(name: &str) -> FieldType {
    FieldType::Identifier(FieldArity::Required, Identifier::Local(name.to_string()))
}

fn primitive(kind: TypeValue) -> FieldType {
    FieldType::Identifier(FieldArity::Required, Identifier::Primitive(kind))
}

fn field(name: &str, field_type: FieldType) -> Field {
    Field { name: name.to_string(), field_type, attributes: vec![], span: span(0) }
}

fn class(name: &str, fields: Vec<Field>) -> Top {
    Top::Class(Class { name: name.to_string(), fields, attributes: vec![], span: span(1) })
}

fn enumeration(name: &str, values: Vec<&str>) -> Top {
    Top::Enum(Enum {
        name: name.to_string(),
        values: values
            .into_iter()
            .map(|v| EnumValue { name: v.to_string(), attributes: vec![], span: span(2) })
            .collect(),
        attributes: vec![],
        span: span(3),
    })
}

fn template(name: &str) -> Top {
    Top::TemplateString(TemplateString {
        name: name.to_string(),
        params: vec![],
        value: Expression::RawString(RawString::new("text".to_string(), span(4))),
        span: span(4),
    })
}

fn variant(name: &str) -> Top {
    Top::Variant(Variant {
        name: name.to_string(),
        function_name: "Extract".to_string(),
        variant_type: "llm".to_string(),
        fields: vec![],
        serializers: vec![],
        adapters: vec![],
        prompt_markers: Ok(vec![]),
        name_span: span(5),
        span: span(5),
    })
}

fn block(name: &str) -> ConfigBlock {
    ConfigBlock { name: name.to_string(), argument: None, fields: vec![], span: span(6) }
}

fn database(tops: Vec<Top>) -> ParserDatabase {
    let mut db = ParserDatabase::new();
    db.add_ast(SchemaAst { tops });
    db
}

fn sample() -> ParserDatabase {
    database(vec![
        enumeration("Color", vec!["Red", "Green"]),
        class("Person", vec![field("name", primitive(TypeValue::String))]),
        variant("Person"),
        template("Greeting"),
        Top::Config(Configuration::RetryPolicy(block("Retry"))),
        Top::Config(Configuration::Printer(block("Short"))),
        class("Color", vec![]),
        class("Team", vec![field("members", FieldType::List(Box::new(named("Person")), 1))]),
    ])
}

#[test]
fn add_ast_appends_in_order() {
    let mut db = database(vec![class("A", vec![])]);
    db.add_ast(SchemaAst { tops: vec![class("B", vec![]), enumeration("E", vec![])] });
    let names: Vec<&str> = db.ast().tops.iter().map(|t| t.name()).collect();
    assert_eq!(names, vec!["A", "B", "E"]);
}

#[test]
fn find_top_by_name_takes_first_declaration() {
    let db = sample();
    assert_eq!(db.find_top_by_str("Color"), Some(0));
    assert_eq!(db.find_top_by_str("Person"), Some(1));
    assert_eq!(db.find_top_by_str("Team"), Some(7));
    assert_eq!(db.find_top_by_str("Greeting"), Some(3));
    assert_eq!(db.find_top_by_str("Missing"), None);
}

#[test]
fn find_type_by_name() {
    let db = sample();
    match db.find_type_by_str("Person") {
        Some(TypeWalker::Class(w)) => {
            assert_eq!(w.id.0, 1);
            assert_eq!(w.name(), "Person");
            assert_eq!(w.ast_class().fields.len(), 1);
        }
        _ => panic!("expected a class"),
    }
    match db.find_type_by_str("Color") {
        Some(TypeWalker::Enum(w)) => {
            assert_eq!(w.id.0, 0);
            assert_eq!(w.name(), "Color");
            assert_eq!(w.ast_enum().values.len(), 2);
        }
        _ => panic!("expected an enum"),
    }
    assert!(db.find_type_by_str("Greeting").is_none());
    assert!(db.find_type_by_str("Retry").is_none());
    assert!(db.find_type_by_str("Missing").is_none());
}

#[test]
fn find_class_and_enum_by_identifier() {
    let db = sample();
    let person = Identifier::Local("Person".to_string());
    let color = Identifier::Local("Color".to_string());
    assert_eq!(db.find_class(&person).map(|w| w.id.0), Some(1));
    assert!(db.find_enum(&person).is_none());
    assert_eq!(db.find_enum(&color).map(|w| w.id.0), Some(0));
    assert!(db.find_class(&color).is_none());
    assert!(db.find_type(&Identifier::ENV("Person".to_string())).is_none());
    assert!(db.find_type(&Identifier::Ref(vec!["Person".to_string()])).is_none());
    assert!(db.find_class(&Identifier::Primitive(TypeValue::Int)).is_none());
}

#[test]
fn find_configurations() {
    let db = sample();
    let retry = db.find_retry_policy("Retry").expect("retry policy");
    assert_eq!(retry.id.0 .0, 4);
    assert_eq!(retry.id.1, "retry_policy");
    assert_eq!(retry.ast_node().get_type(), "retry_policy");
    assert!(db.find_retry_policy("Short").is_none());
    let printer = db.find_printer("Short").expect("printer");
    assert_eq!(printer.id.0 .0, 5);
    assert_eq!(printer.id.1, "printer");
    assert!(db.find_printer("Retry").is_none());
    assert!(db.find_printer("Missing").is_none());
}

#[test]
fn walks_keep_declaration_order() {
    let db = sample();
    let classes: Vec<usize> = db.walk_classes().iter().map(|w| w.id.0).collect();
    assert_eq!(classes, vec![1, 6, 7]);
    let enums: Vec<usize> = db.walk_enums().iter().map(|w| w.id.0).collect();
    assert_eq!(enums, vec![0]);
    let templates: Vec<usize> = db.walk_templates().iter().map(|w| w.id.0).collect();
    assert_eq!(templates, vec![3]);
    let variants: Vec<usize> = db.walk_variants().iter().map(|w| w.id.0).collect();
    assert_eq!(variants, vec![2]);
    let walker = db.walk(7usize);
    assert_eq!(walker.id, 7);
    assert_eq!(walker.walk("x").id, "x");
}

#[test]
fn walkers_are_equal_where_they_stand_on_the_same_element() {
    let db = sample();
    let other = sample();
    let classes = db.walk_classes();
    assert!(classes[0] == db.walk(baml::ast::ClassId(1)));
    assert!(classes[0] == other.walk(baml::ast::ClassId(1)));
    assert!(classes[0] != classes[1]);
}

#[test]
fn valid_type_names_lists_classes_enums_primitives() {
    let db = sample();
    assert_eq!(
        db.valid_type_names(),
        vec!["Person", "Color", "Team", "Color", "string", "int", "float", "bool"]
    );
    assert_eq!(database(vec![]).valid_type_names(), vec!["string", "int", "float", "bool"]);
}

#[test]
fn primitive_fields_resolve_to_their_kind() {
    let db = sample();
    let kinds = [
        TypeValue::String,
        TypeValue::Int,
        TypeValue::Float,
        TypeValue::Bool,
        TypeValue::Null,
        TypeValue::Image,
    ];
    for a in kinds {
        assert_eq!(db.to_raw_field_type(&primitive(a)), SemanticType::Primitive(a));
        for b in kinds {
            let same = db.to_raw_field_type(&primitive(a)) == db.to_raw_field_type(&primitive(b));
            assert_eq!(same, a == b);
        }
    }
}

#[test]
fn raw_field_types() {
    let db = sample();
    assert_eq!(db.to_raw_field_type(&named("Person")), SemanticType::Class("Person".to_string()));
    assert_eq!(db.to_raw_field_type(&named("Color")), SemanticType::Enum("Color".to_string()));
    assert_eq!(db.to_raw_field_type(&named("Missing")), SemanticType::Primitive(TypeValue::Null));
    assert_eq!(db.to_raw_field_type(&named("Greeting")), SemanticType::Primitive(TypeValue::Null));
    let optional = FieldType::Identifier(FieldArity::Optional, Identifier::Local("Person".to_string()));
    assert_eq!(
        db.to_raw_field_type(&optional),
        SemanticType::Optional(Box::new(SemanticType::Class("Person".to_string())))
    );
    let env = FieldType::Identifier(FieldArity::Required, Identifier::ENV("HOME".to_string()));
    assert_eq!(db.to_raw_field_type(&env), SemanticType::Primitive(TypeValue::String));
    let path = FieldType::Identifier(FieldArity::Required, Identifier::Ref(vec!["a".to_string(), "Person".to_string()]));
    assert_eq!(db.to_raw_field_type(&path), SemanticType::Primitive(TypeValue::Null));
    let literal = FieldType::Identifier(FieldArity::Required, Identifier::String("x".to_string()));
    assert_eq!(db.to_raw_field_type(&literal), SemanticType::Primitive(TypeValue::String));
    let invalid = FieldType::Identifier(FieldArity::Required, Identifier::Invalid("?".to_string()));
    assert_eq!(db.to_raw_field_type(&invalid), SemanticType::Primitive(TypeValue::Null));
    let list = FieldType::List(Box::new(primitive(TypeValue::Int)), 2);
    assert_eq!(
        db.to_raw_field_type(&list),
        SemanticType::List(Box::new(SemanticType::List(Box::new(SemanticType::Primitive(TypeValue::Int)))))
    );
    let none = FieldType::List(Box::new(primitive(TypeValue::Int)), 0);
    assert_eq!(db.to_raw_field_type(&none), SemanticType::Primitive(TypeValue::Int));
    let tuple = FieldType::Tuple(FieldArity::Optional, vec![named("Person"), primitive(TypeValue::Bool)]);
    assert_eq!(
        db.to_raw_field_type(&tuple),
        SemanticType::Optional(Box::new(SemanticType::Tuple(vec![
            SemanticType::Class("Person".to_string()),
            SemanticType::Primitive(TypeValue::Bool),
        ])))
    );
    let union = FieldType::Union(FieldArity::Required, vec![named("Color"), primitive(TypeValue::Null)]);
    assert_eq!(
        db.to_raw_field_type(&union),
        SemanticType::Union(vec![
            SemanticType::Enum("Color".to_string()),
            SemanticType::Primitive(TypeValue::Null),
        ])
    );
    let dictionary = FieldType::Dictionary(Box::new(primitive(TypeValue::String)), Box::new(named("Team")));
    assert_eq!(
        db.to_raw_field_type(&dictionary),
        SemanticType::Dictionary(
            Box::new(SemanticType::Primitive(TypeValue::String)),
            Box::new(SemanticType::Class("Team".to_string())),
        )
    );
}

#[test]
fn jinja_types() {
    let db = sample();
    assert_eq!(db.to_jinja_type(&named("Person")), JinjaType::ClassRef("Person".to_string()));
    assert_eq!(db.to_jinja_type(&named("Color")), JinjaType::String);
    assert_eq!(db.to_jinja_type(&named("Missing")), JinjaType::Undefined);
    assert_eq!(db.to_jinja_type(&primitive(TypeValue::Null)), JinjaType::Absent);
    assert_eq!(db.to_jinja_type(&primitive(TypeValue::Image)), JinjaType::Image);
    assert_eq!(db.to_jinja_type(&primitive(TypeValue::Float)), JinjaType::Float);
    let invalid = FieldType::Identifier(FieldArity::Required, Identifier::Invalid("?".to_string()));
    assert_eq!(db.to_jinja_type(&invalid), JinjaType::Unknown);
    let optional = FieldType::Identifier(FieldArity::Optional, Identifier::Primitive(TypeValue::Int));
    assert_eq!(db.to_jinja_type(&optional), JinjaType::Optional(Box::new(JinjaType::Int)));
    let optional_null = FieldType::Identifier(FieldArity::Optional, Identifier::Primitive(TypeValue::Null));
    assert_eq!(db.to_jinja_type(&optional_null), JinjaType::Optional(Box::new(JinjaType::Absent)));
    let union = FieldType::Union(FieldArity::Optional, vec![primitive(TypeValue::Int), primitive(TypeValue::Bool)]);
    assert_eq!(
        db.to_jinja_type(&union),
        JinjaType::Optional(Box::new(JinjaType::Union(vec![JinjaType::Int, JinjaType::Bool])))
    );
    let tuple = FieldType::Tuple(FieldArity::Optional, vec![primitive(TypeValue::Int)]);
    assert_eq!(
        db.to_jinja_type(&tuple),
        JinjaType::Optional(Box::new(JinjaType::Tuple(vec![JinjaType::Int])))
    );
    let list = FieldType::List(Box::new(named("Person")), 1);
    assert_eq!(
        db.to_jinja_type(&list),
        JinjaType::List(Box::new(JinjaType::ClassRef("Person".to_string())))
    );
    let dictionary = FieldType::Dictionary(Box::new(primitive(TypeValue::String)), Box::new(primitive(TypeValue::Bool)));
    assert_eq!(
        db.to_jinja_type(&dictionary),
        JinjaType::Dictionary(Box::new(JinjaType::String), Box::new(JinjaType::Bool))
    );
}

#[test]
fn top_accessors() {
    let c = class("Person", vec![]);
    assert_eq!(c.get_type(), "class");
    assert_eq!(c.kind(), TopKind::Class);
    assert!(c.as_class().is_some());
    assert!(c.as_enum().is_none());
    assert!(c.as_variant().is_none());
    assert!(c.as_template_string().is_none());
    assert!(c.as_configurations().is_none());
    assert_eq!(c.identifier(), Identifier::Local("Person".to_string()));
    assert_eq!(c.span(), span(1));
    let e = enumeration("Color", vec![]);
    assert_eq!(e.get_type(), "enum");
    assert!(e.as_enum().is_some());
    let t = template("T");
    assert_eq!(t.get_type(), "template_string");
    assert!(t.as_template_string().is_some());
    let v = variant("v1");
    assert_eq!(v.get_type(), "impl<llm>");
    assert!(v.as_variant().is_some());
    let mut other = match variant("v2") {
        Top::Variant(v) => v,
        _ => unreachable!(),
    };
    other.variant_type = "code".to_string();
    assert_eq!(Top::Variant(other).get_type(), "impl<?>");
    let retry = Top::Config(Configuration::RetryPolicy(block("R")));
    assert_eq!(retry.get_type(), "retry_policy");
    assert!(retry.as_configurations().is_some());
    assert_eq!(Top::Config(Configuration::Printer(block("P"))).get_type(), "printer");
    assert_eq!(Top::Config(Configuration::TestCase(block("T"))).get_type(), "test");
}

#[test]
fn identifier_names() {
    assert_eq!(Identifier::ENV("HOME".to_string()).name(), "HOME");
    assert_eq!(Identifier::Local("x".to_string()).name(), "x");
    assert_eq!(Identifier::Ref(vec!["a".to_string(), "b".to_string()]).name(), "a.b");
    assert_eq!(Identifier::Primitive(TypeValue::Image).name(), "image");
    assert_eq!(Identifier::String("s".to_string()).name(), "s");
    assert_eq!(Identifier::Invalid("?".to_string()).name(), "?");
    assert!(Identifier::Local("x".to_string()).is_valid_type());
    assert!(Identifier::Ref(vec![]).is_valid_type());
    assert!(Identifier::Primitive(TypeValue::Int).is_valid_type());
    assert!(!Identifier::ENV("x".to_string()).is_valid_type());
    assert!(!Identifier::String("x".to_string()).is_valid_type());
    assert!(!Identifier::Invalid("x".to_string()).is_valid_type());
    let _ = Attribute { name: "alias".to_string(), arguments: vec![], span: span(0) };
    let _ = ConfigBlockProperty {
        name: "k".to_string(),
        template_args: None,
        value: None,
        key_span: span(0),
        value_span: span(0),
        span: span(0),
    };
}
