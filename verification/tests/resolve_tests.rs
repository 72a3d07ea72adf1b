use baml::ast::{Expression, Identifier, RawString, TypeValue};
use baml::diagnostics::Span;
use baml::resolve::{resolve_numeric, Environment, ResolveError};
use baml::value::{BamlMap, BamlValue};

fn env(pairs: &[(&str, &str)]) -> Environment {
    let mut e = Environment::new();
    for (k, v) in pairs {
        e.insert(k.to_string(), v.to_string());
    }
    e
}

fn string(s: &str) -> Expression {
    Expression::String(s.to_string())
}

fn env_var(s: &str) -> Expression {
    Expression::Identifier(Identifier::ENV(s.to_string()))
}

fn local(s: &str) -> Expression {
    Expression::Identifier(Identifier::Local(s.to_string()))
}

#[test]
fn resolve_string_literal() {
    assert_eq!(string("x").resolve(&env(&[])), Ok(BamlValue::String("x".to_string())));
    let raw = Expression::RawString(RawString::new("raw text".to_string(), Span::new(0, 0, 0)));
    assert_eq!(raw.resolve(&env(&[])), Ok(BamlValue::String("raw text".to_string())));
}

#[test]
fn resolve_numeric_integer() {
    assert_eq!(Expression::Numeric("3".to_string()).resolve(&env(&[])), Ok(BamlValue::Int(3)));
    assert_eq!(Expression::Numeric("-17".to_string()).resolve(&env(&[])), Ok(BamlValue::Int(-17)));
}

#[test]
fn resolve_numeric_float() {
    let got = Expression::Numeric("3.5".to_string()).resolve(&env(&[]));
    match got {
        Ok(BamlValue::Float(text)) => {
            assert_eq!(text, "3.5");
            assert_eq!(text.parse::<f64>().unwrap(), 3.5);
        }
        other => panic!("expected a float, got {:?}", other),
    }
    // too large for 64 bits, still a number
    match resolve_numeric("9223372036854775808") {
        Ok(BamlValue::Float(text)) => assert_eq!(text.parse::<f64>().unwrap(), 9223372036854775808.0),
        other => panic!("expected a float, got {:?}", other),
    }
}

#[test]
fn resolve_numeric_invalid() {
    assert_eq!(
        Expression::Numeric("abc".to_string()).resolve(&env(&[])),
        Err(ResolveError::InvalidNumeric("abc".to_string()))
    );
}

#[test]
fn resolve_identifiers() {
    let e = env(&[("KEY", "value")]);
    assert_eq!(local("true").resolve(&e), Ok(BamlValue::Bool(true)));
    assert_eq!(local("false").resolve(&e), Ok(BamlValue::Bool(false)));
    assert_eq!(local("null").resolve(&e), Ok(BamlValue::Null));
    assert_eq!(local("anything").resolve(&e), Ok(BamlValue::String("anything".to_string())));
    assert_eq!(env_var("KEY").resolve(&e), Ok(BamlValue::String("value".to_string())));
    assert_eq!(env_var("OTHER").resolve(&e), Err(ResolveError::EnvVarNotFound("OTHER".to_string())));
    let path = Expression::Identifier(Identifier::Ref(vec!["a".to_string(), "b".to_string(), "c".to_string()]));
    assert_eq!(path.resolve(&e), Ok(BamlValue::String("a.b.c".to_string())));
    let primitive = Expression::Identifier(Identifier::Primitive(TypeValue::Int));
    assert_eq!(primitive.resolve(&e), Ok(BamlValue::String("int".to_string())));
    assert_eq!(Expression::Bool(true).resolve(&e), Ok(BamlValue::Bool(true)));
}

#[test]
fn resolve_list_in_order() {
    let list = Expression::List(vec![string("a"), Expression::Numeric("1".to_string()), local("null")]);
    assert_eq!(
        list.resolve(&env(&[])),
        Ok(BamlValue::List(vec![BamlValue::String("a".to_string()), BamlValue::Int(1), BamlValue::Null]))
    );
    let failing = Expression::List(vec![string("a"), Expression::Numeric("x".to_string()), env_var("NO")]);
    assert_eq!(failing.resolve(&env(&[])), Err(ResolveError::InvalidNumeric("x".to_string())));
}

#[test]
fn resolve_mapping_keeps_insertion_order() {
    let mapping = Expression::Mapping(vec![
        (string("z"), Expression::Numeric("1".to_string())),
        (local("a"), Expression::Numeric("2".to_string())),
        (string("z"), Expression::Numeric("3".to_string())),
    ]);
    match mapping.resolve(&env(&[])) {
        Ok(BamlValue::Mapping(map)) => {
            assert_eq!(map.len(), 2);
            let first = map.get_index(0).unwrap();
            assert_eq!((first.0.as_str(), first.1), ("z", &BamlValue::Int(3)));
            let second = map.get_index(1).unwrap();
            assert_eq!((second.0.as_str(), second.1), ("a", &BamlValue::Int(2)));
            assert!(map.get_index(2).is_none());
            assert_eq!(map.get("a"), Some(&BamlValue::Int(2)));
            assert_eq!(map.get("missing"), None);
        }
        other => panic!("expected a mapping, got {:?}", other),
    }
}

#[test]
fn resolve_mapping_errors() {
    let bad_key = Expression::Mapping(vec![(Expression::Numeric("1".to_string()), string("v"))]);
    assert_eq!(bad_key.resolve(&env(&[])), Err(ResolveError::ExpectedString));
    let bad_value = Expression::Mapping(vec![(string("k"), env_var("NO"))]);
    assert_eq!(bad_value.resolve(&env(&[])), Err(ResolveError::EnvVarNotFound("NO".to_string())));
}

#[test]
fn map_insert_and_read() {
    let mut map = BamlMap::new();
    assert_eq!(map.len(), 0);
    map.insert("one".to_string(), BamlValue::Int(1));
    map.insert("two".to_string(), BamlValue::Int(2));
    map.insert("one".to_string(), BamlValue::Int(11));
    assert_eq!(map.len(), 2);
    assert_eq!(map.get("one"), Some(&BamlValue::Int(11)));
    assert_eq!(map.get_index(0).map(|e| e.0.as_str()), Some("one"));
    assert_eq!(map.get_index(1).map(|e| e.0.as_str()), Some("two"));
}

#[test]
fn as_string_value_of_env() {
    let e = env(&[("KEY", "value"), ("EMPTY", "")]);
    assert_eq!(env_var("KEY").as_string_value(&e), Ok("value".to_string()));
    assert_eq!(env_var("EMPTY").as_string_value(&e), Ok("".to_string()));
    assert_eq!(
        env_var("ABSENT").as_string_value(&e),
        Err(ResolveError::EnvVarNotFound("ABSENT".to_string()))
    );
}

#[test]
fn as_string_value_of_other_expressions() {
    let e = env(&[]);
    assert_eq!(string("s").as_string_value(&e), Ok("s".to_string()));
    assert_eq!(local("name").as_string_value(&e), Ok("name".to_string()));
    assert_eq!(Expression::Numeric("1".to_string()).as_string_value(&e), Err(ResolveError::ExpectedString));
    assert_eq!(Expression::Bool(true).as_string_value(&e), Err(ResolveError::ExpectedString));
    assert_eq!(Expression::List(vec![]).as_string_value(&e), Err(ResolveError::ExpectedString));
}

#[test]
fn as_bool_of_env_is_presence() {
    let e = env(&[("KEY", "value"), ("EMPTY", "")]);
    assert_eq!(env_var("KEY").as_bool(&e), Ok(true));
    assert_eq!(env_var("EMPTY").as_bool(&e), Ok(true));
    assert_eq!(env_var("ABSENT").as_bool(&e), Ok(false));
    assert_eq!(Expression::Bool(false).as_bool(&e), Ok(false));
    assert_eq!(Expression::Bool(true).as_bool(&e), Ok(true));
    assert_eq!(string("true").as_bool(&e), Err(ResolveError::ExpectedBool));
    assert_eq!(local("true").as_bool(&e), Err(ResolveError::ExpectedBool));
}

#[test]
fn environment_lookups() {
    let mut e = Environment::new();
    assert!(!e.contains_key("A"));
    assert_eq!(e.get("A"), None);
    e.insert("A".to_string(), "1".to_string());
    e.insert("A".to_string(), "2".to_string());
    assert!(e.contains_key("A"));
    assert_eq!(e.get("A"), Some(&"2".to_string()));
}

#[test]
fn error_messages() {
    assert_eq!(ResolveError::ExpectedBool.message(), "Expected bool value");
    assert_eq!(ResolveError::ExpectedString.message(), "Expected string value");
    assert_eq!(
        ResolveError::EnvVarNotFound("KEY".to_string()).message(),
        "Environment variable KEY not found"
    );
    assert_eq!(ResolveError::InvalidNumeric("abc".to_string()).message(), "Invalid numeric value: abc");
}
