use chert::address::{Cidr, Ip};
use chert::pattern::Pattern;
use chert::variables::{Schema, Value, Variable};

fn schema(fields: &[(&str, Variable)]) -> Schema {
    let mut schema = Schema::new();
    for (name, kind) in fields {
        assert!(schema.insert(name, *kind));
    }
    schema
}

fn cidr(a: u8, b: u8, c: u8, d: u8, length: u8) -> Cidr {
    Cidr::new(Ip::v4(a, b, c, d), length).unwrap()
}

fn re(s: &'static str) -> Pattern {
    Pattern::new(s).unwrap()
}

#[test]
fn test_boolean() {
    let variables = schema(&[("a", Variable::Boolean)]);
    if let Ok(ast) = chert::parse("a && true", &variables) {
        let engine = chert::compile(variables, Vec::from([(0, ast)]));
        assert_eq!(engine.eval(&vec![Value::Boolean(true)]), &[&0]);
        assert_eq!(engine.eval(&vec![Value::Boolean(false)]), &[&0; 0]);
    } else {
        unreachable!();
    }
}

#[test]
fn test_cidr() {
    let variables = schema(&[("a", Variable::Cidr)]);
    if let Ok(ast) = chert::parse("1.1.1.1 in a", &variables) {
        let engine = chert::compile(variables, Vec::from([(0, ast)]));
        assert_eq!(engine.eval(&vec![Value::Cidr(cidr(1, 1, 1, 0, 24))]), &[&0]);
        assert_eq!(engine.eval(&vec![Value::Cidr(cidr(1, 1, 2, 0, 24))]), &[&0; 0]);
    } else {
        unreachable!();
    }
}

#[test]
fn test_int64() {
    let variables = schema(&[("a", Variable::Int64)]);
    if let Ok(ast) = chert::parse("a == -1", &variables) {
        let engine = chert::compile(variables, Vec::from([(0, ast)]));
        assert_eq!(engine.eval(&vec![Value::Int64(-1)]), &[&0]);
        assert_eq!(engine.eval(&vec![Value::Int64(-2)]), &[&0; 0]);
    } else {
        unreachable!();
    }
}

#[test]
fn test_ip() {
    let variables = schema(&[("a", Variable::Ip)]);
    if let Ok(ast) = chert::parse("a == 1.1.1.1", &variables) {
        let engine = chert::compile(variables, Vec::from([(0, ast)]));
        assert_eq!(engine.eval(&vec![Value::Ip(Ip::v4(1, 1, 1, 1))]), &[&0]);
        assert_eq!(engine.eval(&vec![Value::Ip(Ip::v4(1, 1, 1, 2))]), &[&0; 0]);
    } else {
        unreachable!();
    }
}

#[test]
fn test_string() {
    let variables = schema(&[("a", Variable::String)]);
    if let Ok(ast) = chert::parse("a == 'foo'", &variables) {
        let engine = chert::compile(variables, Vec::from([(0, ast)]));
        assert_eq!(engine.eval(&vec![Value::String(String::from("foo"))]), &[&0]);
        assert_eq!(engine.eval(&vec![Value::String(String::from("bar"))]), &[&0; 0]);
    } else {
        unreachable!();
    }
}

#[test]
fn test_uint64() {
    let variables = schema(&[("a", Variable::Uint64)]);
    if let Ok(ast) = chert::parse("a == 1", &variables) {
        let engine = chert::compile(variables, Vec::from([(0, ast)]));
        assert_eq!(engine.eval(&vec![Value::Uint64(1)]), &[&0]);
        assert_eq!(engine.eval(&vec![Value::Uint64(2)]), &[&0; 0]);
    } else {
        unreachable!();
    }
}

#[test]
fn test_regex() {
    let variables = schema(&[("a", Variable::Regex)]);
    if let Ok(ast) = chert::parse("'foo' ~ a", &variables) {
        let engine = chert::compile(variables, Vec::from([(0, ast)]));
        assert_eq!(engine.eval(&vec![Value::Regex(re("f.."))]), &[&0]);
        assert_eq!(engine.eval(&vec![Value::Regex(re("b.."))]), &[&0; 0]);
    } else {
        unreachable!();
    }
}

#[test]
fn test_all_types() {
    let variables = schema(&[
        ("a", Variable::Boolean),
        ("b", Variable::Cidr),
        ("c", Variable::Int64),
        ("d", Variable::Ip),
        ("e", Variable::String),
        ("f", Variable::Uint64),
        ("g", Variable::Regex),
    ]);
    if let Ok(ast) = chert::parse(
        &Vec::from([
            "a == true",
            "1.1.1.1 in b",
            "c == -1",
            "d == 1.1.1.1",
            "e == 'foo'",
            "f == 1",
            "'foo' ~ g",
        ])
        .join(" and "),
        &variables,
    ) {
        let engine = chert::compile(variables, Vec::from([(0, ast)]));
        assert_eq!(
            engine.eval(&vec![
                Value::Boolean(true),
                Value::Cidr(cidr(1, 1, 1, 0, 24)),
                Value::Int64(-1),
                Value::Ip(Ip::v4(1, 1, 1, 1)),
                Value::String(String::from("foo")),
                Value::Uint64(1),
                Value::Regex(re("f..")),
            ]),
            &[&0]
        );
        assert_eq!(
            engine.eval(&vec![
                Value::Boolean(false),
                Value::Cidr(cidr(1, 1, 2, 0, 24)),
                Value::Int64(-2),
                Value::Ip(Ip::v4(1, 1, 1, 2)),
                Value::String(String::from("bar")),
                Value::Uint64(2),
                Value::Regex(re("b..")),
            ]),
            &[&0; 0]
        );
    } else {
        unreachable!();
    }
}

#[test]
fn test_skip_either() {
    // a predicate that holds must not make a later one that fails hold
    let variables = schema(&[("a", Variable::String), ("b", Variable::String)]);
    let first = chert::parse("a == 'a' and b == 'b'", &variables).unwrap();
    let second = chert::parse("a == 'b' and b == 'b'", &variables).unwrap();
    let engine = chert::compile(variables, Vec::from([(0, first), (1, second)]));
    assert_eq!(
        engine.eval(&vec![
            Value::String(String::from("a")),
            Value::String(String::from("b")),
        ]),
        &[&0]
    );
}
