use chert::address::{Cidr, Ip};
use chert::compile::{check, compile, compile_unsafe};
use chert::parse::nodes::boolean::{
    NodeBoolean, NodeBooleanBoth, NodeBooleanEither, NodeBooleanEquals, NodeBooleanMatches,
    NodeBooleanNot, NodeBooleanWithin,
};
use chert::parse::nodes::cidr::NodeCidr;
use chert::parse::nodes::int64::{NodeInt64, NodeInt64Negative};
use chert::parse::nodes::ip::NodeIp;
use chert::parse::nodes::regex::NodeRegex;
use chert::parse::nodes::string::NodeString;
use chert::parse::nodes::uint64::{NodeUint64, NodeUint64Add, NodeUint64Subtract};
use chert::pattern::Pattern;
use chert::variables::{Schema, Value, Variable};

fn schema(fields: &[(&str, Variable)]) -> Schema {
    let mut schema = Schema::new();
    for (name, kind) in fields {
        assert!(schema.insert(name, *kind));
    }
    schema
}

fn holds(text: &str, fields: &[(&str, Variable)], record: Vec<Value>) -> bool {
    let variables = schema(fields);
    assert!(variables.admits(&record));
    let ast = chert::parse(text, &variables).unwrap();
    let engine = compile(variables, vec![((), ast)]);
    engine.eval(&record).len() == 1
}

fn uint(name: &str) -> Box<NodeUint64> {
    Box::new(NodeUint64::Variable { name: name.to_owned() })
}

fn equals(left: NodeUint64, right: u64) -> NodeBoolean {
    NodeBoolean::Equals(NodeBooleanEquals::Uint64Uint64 {
        left,
        right: NodeUint64::Constant(right),
    })
}

#[test]
fn sums_and_differences_wrap() {
    let fields = [("a", Variable::Uint64), ("b", Variable::Uint64)];
    let record = |a, b| vec![Value::Uint64(a), Value::Uint64(b)];
    assert!(holds("a + b == 5", &fields, record(2, 3)));
    assert!(holds("a + b == 0", &fields, record(u64::MAX, 1)));
    assert!(holds("a + b == 18446744073709551614", &fields, record(u64::MAX, u64::MAX)));
    assert!(holds("a - b == 18446744073709551615", &fields, record(0, 1)));
    assert!(holds("a - b == 1", &fields, record(3, 2)));
    assert!(!holds("a - b == 1", &fields, record(2, 3)));
}

#[test]
fn negation_wraps() {
    let variables = schema(&[("a", Variable::Uint64), ("i", Variable::Int64)]);
    let negative = NodeBoolean::Equals(NodeBooleanEquals::Int64Int64 {
        left: NodeInt64::Variable { name: "i".to_owned() },
        right: NodeInt64::Negative(NodeInt64Negative::Uint64(uint("a"))),
    });
    let engine = compile_unsafe(variables, vec![(0, negative)]);
    let matched = |a, i| engine.eval(&vec![Value::Uint64(a), Value::Int64(i)]).len() == 1;
    assert!(matched(0, 0));
    assert!(matched(1, -1));
    assert!(matched(i64::MAX as u64, -i64::MAX));
    assert!(matched(1 << 63, i64::MIN));
    assert!(matched((1 << 63) + 1, i64::MAX));
    assert!(matched(u64::MAX, 1));
    assert!(!matched(1, 1));
}

#[test]
fn strings_concatenate_and_compare_exactly() {
    let fields = [("a", Variable::String), ("b", Variable::String)];
    let record = |a: &str, b: &str| vec![Value::String(a.into()), Value::String(b.into())];
    assert!(holds("a + b == 'foobar'", &fields, record("foo", "bar")));
    assert!(holds("a + '-' + b == 'foo-bar'", &fields, record("foo", "bar")));
    assert!(!holds("a + b == 'foobar'", &fields, record("bar", "foo")));
    assert!(!holds("a == 'Foo'", &fields, record("foo", "")));
    assert!(holds("a == b", &fields, record("é", "é")));
    assert!(holds("a + b == ''", &fields, record("", "")));
}

#[test]
fn booleans_combine() {
    let fields = [("a", Variable::Boolean), ("b", Variable::Boolean)];
    let record = |a, b| vec![Value::Boolean(a), Value::Boolean(b)];
    for a in [false, true] {
        for b in [false, true] {
            assert_eq!(holds("a and b", &fields, record(a, b)), a && b);
            assert_eq!(holds("a or b", &fields, record(a, b)), a || b);
            assert_eq!(holds("a == b", &fields, record(a, b)), a == b);
            assert_eq!(holds("a and b or a == b", &fields, record(a, b)), a && b || a == b);
            assert_eq!(holds("a or b and false", &fields, record(a, b)), a);
            assert_eq!(holds("a", &fields, record(a, b)), a);
            assert_eq!(holds("b", &fields, record(a, b)), b);
        }
    }
    assert!(holds("true", &fields, record(false, false)));
    assert!(!holds("false", &fields, record(true, true)));
    assert!(holds("true", &[], vec![]));
}

#[test]
fn not_inverts() {
    let variables = schema(&[("a", Variable::Boolean)]);
    let not = NodeBoolean::Not(NodeBooleanNot::Boolean(Box::new(NodeBoolean::Variable {
        name: "a".to_owned(),
    })));
    let engine = compile_unsafe(variables, vec![(7, not)]);
    assert_eq!(engine.eval(&vec![Value::Boolean(false)]), [&7]);
    assert_eq!(engine.eval(&vec![Value::Boolean(true)]), [&7; 0]);
}

#[test]
fn addresses_of_the_other_family_are_in_no_network() {
    let fields = [("ip", Variable::Ip), ("net", Variable::Cidr)];
    let v6 = Ip::V6(0x2001_0db8_0000_0000_0000_0000_0000_0001);
    let net6 = Cidr::new(Ip::V6(0x2001_0db8_0000_0000_0000_0000_0000_0000), 32).unwrap();
    let net4 = Cidr::new(Ip::V4(0), 0).unwrap();
    assert!(holds("ip in net", &fields, vec![Value::Ip(v6), Value::Cidr(net6)]));
    assert!(!holds("ip in net", &fields, vec![Value::Ip(v6), Value::Cidr(net4)]));
    assert!(!holds("ip in net", &fields, vec![Value::Ip(Ip::v4(1, 2, 3, 4)), Value::Cidr(net6)]));
    assert!(holds("ip in net", &fields, vec![Value::Ip(Ip::v4(1, 2, 3, 4)), Value::Cidr(net4)]));
    assert!(!holds("ip == 0.0.0.0", &fields, vec![Value::Ip(Ip::V6(0)), Value::Cidr(net4)]));
}

#[test]
fn a_regex_matches_anywhere() {
    let fields = [("s", Variable::String), ("r", Variable::Regex)];
    let record = |s: &str, r: &str| {
        vec![Value::String(s.into()), Value::Regex(Pattern::new(r).unwrap())]
    };
    assert!(holds("s ~ m/ell/", &fields, record("hello", "x")));
    assert!(!holds("s ~ m/^ell/", &fields, record("hello", "x")));
    assert!(holds("s ~ r", &fields, record("hello", "l+o$")));
    assert!(!holds("s ~ r", &fields, record("hello", "L")));
    assert!(holds("s + '!' ~ m/o!$/", &fields, record("hello", "x")));
}

#[test]
fn matches_come_in_the_order_of_the_batch() {
    let variables = schema(&[("a", Variable::Uint64)]);
    let source = ["a == 1", "a + 1 == 2", "a == 2", "a - 1 == 0", "a == 1 or a == 2"];
    let batch = source
        .iter()
        .zip(["p", "q", "r", "q", "s"])
        .map(|(text, id)| (id, chert::parse(text, &variables).unwrap()))
        .collect();
    let engine = compile(variables, batch);
    assert_eq!(engine.eval(&vec![Value::Uint64(1)]), [&"p", &"q", &"q", &"s"]);
    assert_eq!(engine.eval(&vec![Value::Uint64(2)]), [&"r", &"s"]);
    assert_eq!(engine.eval(&vec![Value::Uint64(3)]), [&""; 0]);
}

#[test]
fn an_engine_without_predicates_matches_nothing() {
    let variables = schema(&[("a", Variable::Uint64)]);
    let engine = compile::<u8>(variables, vec![]);
    assert!(engine.eval(&vec![Value::Uint64(1)]).is_empty());
}

#[test]
fn evaluating_again_gives_the_same_matches() {
    let variables = schema(&[("a", Variable::Uint64), ("b", Variable::String)]);
    let batch = vec![
        (0, chert::parse("a == 1 and b + 'x' == 'yx'", &variables).unwrap()),
        (1, chert::parse("a + 1 == 2 or b == 'z'", &variables).unwrap()),
    ];
    let engine = compile(variables, batch);
    let one = vec![Value::Uint64(1), Value::String("y".into())];
    let other = vec![Value::Uint64(5), Value::String("z".into())];
    let first = engine.eval(&one);
    assert_eq!(first, [&0, &1]);
    assert_eq!(engine.eval(&other), [&1]);
    assert_eq!(engine.eval(&one), first);
    assert_eq!(engine.eval(&one), first);
    assert!(matches!(&one[..], [Value::Uint64(1), Value::String(text)] if text == "y"));
}

#[test]
fn earlier_predicates_leave_nothing_behind_for_later_ones() {
    let variables = schema(&[("a", Variable::Boolean), ("b", Variable::Boolean)]);
    let batch = vec![
        (0, chert::parse("a or b", &variables).unwrap()),
        (1, chert::parse("a and b", &variables).unwrap()),
        (2, chert::parse("(a or b) and (b or a) and (a == b)", &variables).unwrap()),
        (3, chert::parse("b and a or b == a", &variables).unwrap()),
    ];
    let engine = compile(variables, batch);
    let record = |a, b| vec![Value::Boolean(a), Value::Boolean(b)];
    assert_eq!(engine.eval(&record(true, false)), [&0]);
    assert_eq!(engine.eval(&record(true, true)), [&0, &1, &2, &3]);
    assert_eq!(engine.eval(&record(false, false)), [&3]);
}

#[test]
fn the_second_operand_is_skipped_where_the_first_decides() {
    let variables = schema(&[("a", Variable::Boolean), ("s", Variable::String)]);
    let and = chert::parse("a and s ~ m/(x+x+)+y/", &variables).unwrap();
    let or = chert::parse("a or s ~ m/(x+x+)+y/", &variables).unwrap();
    let engine = compile(variables, vec![("and", and), ("or", or)]);
    let record = |a: bool| vec![Value::Boolean(a), Value::String("xxxxxy".into())];
    assert_eq!(engine.eval(&record(false)), [&"or"]);
    assert_eq!(engine.eval(&record(true)), [&"and", &"or"]);
}

#[test]
fn trees_made_by_hand_are_checked_against_the_schema() {
    let variables = schema(&[("a", Variable::Uint64), ("s", Variable::String)]);
    let good = vec![
        (0, equals(NodeUint64::Add(NodeUint64Add::Uint64Uint64 { left: uint("a"), right: uint("a") }), 4)),
        (1, equals(NodeUint64::Subtract(NodeUint64Subtract::Uint64Uint64 {
            left: uint("a"),
            right: Box::new(NodeUint64::Constant(2)),
        }), 0)),
    ];
    assert!(check(&variables, &good));
    let unknown = vec![(0, equals(NodeUint64::Variable { name: "b".to_owned() }, 1))];
    assert!(!check(&variables, &unknown));
    let mistyped = vec![(0, equals(NodeUint64::Variable { name: "s".to_owned() }, 1))];
    assert!(!check(&variables, &mistyped));
    let nested = vec![(
        0,
        NodeBoolean::Both(NodeBooleanBoth::BooleanBoolean {
            left: Box::new(NodeBoolean::Constant(true)),
            right: Box::new(NodeBoolean::Either(NodeBooleanEither::BooleanBoolean {
                left: Box::new(NodeBoolean::Matches(NodeBooleanMatches::StringRegex {
                    left: NodeString::Variable { name: "s".to_owned() },
                    right: NodeRegex::Variable { name: "s".to_owned() },
                })),
                right: Box::new(NodeBoolean::Within(NodeBooleanWithin::IpCidr {
                    left: NodeIp::Constant(Ip::V4(1)),
                    right: NodeCidr::Constant(Cidr::new_host(Ip::V4(1))),
                })),
            })),
        }),
    )];
    assert!(!check(&variables, &nested));
    let engine = compile_unsafe(variables, good);
    assert_eq!(engine.eval(&vec![Value::Uint64(2), Value::String(String::new())]), [&0, &1]);
}

#[test]
fn a_schema_keeps_its_fields_in_order_and_refuses_a_name_twice() {
    let mut variables = Schema::new();
    assert_eq!(variables.len(), 0);
    assert!(variables.insert("x", Variable::Uint64));
    assert!(variables.insert("y", Variable::String));
    assert!(variables.insert("z", Variable::Uint64));
    assert!(!variables.insert("x", Variable::String));
    assert!(!variables.insert("y", Variable::String));
    assert_eq!(variables.len(), 3);
    assert_eq!(variables.find("x"), Some(0));
    assert_eq!(variables.find("z"), Some(2));
    assert_eq!(variables.find("w"), None);
    assert!(variables.has("y", Variable::String));
    assert_eq!(variables.count(Variable::Uint64), 2);
    assert_eq!(variables.count(Variable::Boolean), 0);
    assert!(variables.has("z", Variable::Uint64));
    assert!(!variables.has("z", Variable::String));
    assert!(!variables.has("w", Variable::Uint64));
    let copy = variables.copy();
    assert_eq!(copy.len(), 3);
    assert_eq!(copy.find("z"), Some(2));
    assert_eq!(copy.count(Variable::Uint64), 2);
}

#[test]
fn a_schema_admits_records_of_its_shape_only() {
    let variables = schema(&[("x", Variable::Uint64), ("y", Variable::String)]);
    assert!(variables.admits(&vec![Value::Uint64(1), Value::String("a".into())]));
    assert!(!variables.admits(&vec![Value::String("a".into()), Value::Uint64(1)]));
    assert!(!variables.admits(&vec![Value::Uint64(1)]));
    assert!(!variables.admits(&vec![]));
    assert!(!variables.admits(&vec![
        Value::Uint64(1),
        Value::String("a".into()),
        Value::Boolean(true),
    ]));
    assert_eq!(Value::Int64(-3).kind(), Variable::Int64);
    assert_eq!(Value::Ip(Ip::V4(0)).kind(), Variable::Ip);
}

#[test]
fn fields_of_one_type_keep_their_own_slots() {
    let fields = [
        ("a", Variable::Uint64),
        ("s", Variable::String),
        ("b", Variable::Uint64),
        ("t", Variable::String),
        ("c", Variable::Uint64),
    ];
    let record = vec![
        Value::Uint64(1),
        Value::String("s".into()),
        Value::Uint64(20),
        Value::String("t".into()),
        Value::Uint64(300),
    ];
    assert!(holds("a + b + c == 321 and s + t == 'st'", &fields, record));
}

#[test]
fn a_copy_of_an_engine_reports_the_same() {
    let variables = schema(&[("a", Variable::Uint64), ("s", Variable::String)]);
    let batch = vec![
        (1, chert::parse("a == 1 and s ~ m/^x/", &variables).unwrap()),
        (2, chert::parse("a + 1 == 3 or s + 'y' == 'xy'", &variables).unwrap()),
    ];
    let copied = variables.clone();
    assert_eq!(copied.len(), 2);
    assert_eq!(copied.find("s"), Some(1));
    let engine = compile(variables, batch);
    let copy = engine.clone();
    for record in [
        vec![Value::Uint64(1), Value::String("x".into())],
        vec![Value::Uint64(2), Value::String("z".into())],
        vec![Value::Uint64(0), Value::String("".into())],
    ] {
        assert!(copied.admits(&record));
        assert_eq!(copy.eval(&record), engine.eval(&record));
    }
    assert_eq!(copy.eval(&vec![Value::Uint64(1), Value::String("x".into())]), [&1, &2]);
}
