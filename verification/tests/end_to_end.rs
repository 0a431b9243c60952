use chert::address::{Cidr, Ip};
use chert::parse::Error;
use chert::variables::{Schema, Value, Variable};
use chert::ParseError;

fn schema(fields: &[(&str, Variable)]) -> Schema {
    let mut schema = Schema::new();
    for (name, kind) in fields {
        assert!(schema.insert(name, *kind));
    }
    schema
}

fn full() -> Schema {
    schema(&[
        ("a", Variable::Uint64),
        ("b", Variable::String),
        ("c", Variable::Ip),
        ("d", Variable::Cidr),
        ("g", Variable::Regex),
    ])
}

fn record(a: u64) -> Vec<Value> {
    vec![
        Value::Uint64(a),
        Value::String(String::from("meow")),
        Value::Ip(Ip::v4(10, 0, 0, 1)),
        Value::Cidr(Cidr::new(Ip::v4(10, 0, 0, 0), 8).unwrap()),
        Value::Regex(chert::pattern::Pattern::new("m.*w").unwrap()),
    ]
}

#[test]
fn sum_equals_constant() {
    let variables = full();
    let ast = chert::parse("a + 1 == 3", &variables).unwrap();
    let engine = chert::compile(variables, vec![(0, ast)]);
    assert_eq!(engine.eval(&record(2)), [&0]);
    assert_eq!(engine.eval(&record(3)), [&0; 0]);
}

#[test]
fn address_in_network() {
    let variables = schema(&[("ip", Variable::Ip)]);
    let ast = chert::parse("ip in 1.1.1.0/24", &variables).unwrap();
    let engine = chert::compile(variables, vec![(0, ast)]);
    assert_eq!(engine.eval(&vec![Value::Ip(Ip::v4(1, 1, 1, 1))]), [&0]);
    assert_eq!(engine.eval(&vec![Value::Ip(Ip::v4(1, 1, 2, 1))]), [&0; 0]);
}

#[test]
fn batch_of_and_and_or() {
    let variables = schema(&[("nick", Variable::String), ("host", Variable::String)]);
    let both = chert::parse("nick == 'meow' and host == 'meow'", &variables).unwrap();
    let either = chert::parse("nick == 'meow' or host == 'meow'", &variables).unwrap();
    let engine = chert::compile(variables, vec![(0, both), (1, either)]);
    let matched = engine.eval(&vec![
        Value::String(String::from("purr")),
        Value::String(String::from("meow")),
    ]);
    assert_eq!(matched, [&1]);
}

#[test]
fn negative_constant() {
    let variables = schema(&[("a", Variable::Int64)]);
    let ast = chert::parse("a == -1", &variables).unwrap();
    let engine = chert::compile(variables, vec![(0, ast)]);
    assert_eq!(engine.eval(&vec![Value::Int64(-1)]), [&0]);
    assert_eq!(engine.eval(&vec![Value::Int64(0)]), [&0; 0]);
}

#[test]
fn constant_match_without_variables() {
    let variables = full();
    let ast = chert::parse("'foo' ~ m/f../", &variables).unwrap();
    let engine = chert::compile(variables, vec![(0, ast)]);
    assert_eq!(engine.eval(&record(0)), [&0]);
    assert_eq!(engine.eval(&record(77)), [&0]);
    let none = Schema::new();
    let ast = chert::parse("'foo' ~ m/f../", &none).unwrap();
    let engine = chert::compile(none, vec![(0, ast)]);
    assert_eq!(engine.eval(&vec![]), [&0]);
}

#[test]
fn errors_of_the_entry_point() {
    let variables = full();
    assert!(matches!(
        chert::parse("a ==", &variables),
        Err(ParseError::Parse(Error::MissingOperand))
    ));
    match chert::parse("unknown == 1", &variables) {
        Err(ParseError::Parse(Error::UnknownIdentifier(name))) => assert_eq!(name, "unknown"),
        other => panic!("{other:?}"),
    }
    assert!(matches!(
        chert::parse("a + 1", &variables),
        Err(ParseError::Parse(Error::NotBoolean))
    ));
}
