use chert::address::{Cidr, Ip};
use chert::parse::nodes::boolean::{
    NodeBoolean, NodeBooleanBoth, NodeBooleanEither, NodeBooleanEquals, NodeBooleanMatches,
    NodeBooleanNot, NodeBooleanWithin,
};
use chert::parse::nodes::cidr::NodeCidr;
use chert::parse::nodes::int64::{NodeInt64, NodeInt64Negative};
use chert::parse::nodes::ip::NodeIp;
use chert::parse::nodes::regex::NodeRegex;
use chert::parse::nodes::string::{NodeString, NodeStringAdd};
use chert::parse::nodes::uint64::{NodeUint64, NodeUint64Add, NodeUint64Subtract};
use chert::pattern::Pattern;
use chert::variables::{Schema, Value, Variable};
use serde_json::Value as Json;

fn tagged(tag: &str, value: Json) -> Json {
    let mut map = serde_json::Map::new();
    map.insert(tag.to_owned(), value);
    Json::Object(map)
}

fn pair(tag: &str, left: Json, right: Json) -> Json {
    let mut map = serde_json::Map::new();
    map.insert("left".to_owned(), left);
    map.insert("right".to_owned(), right);
    tagged(tag, Json::Object(map))
}

fn named(name: &str) -> Json {
    let mut map = serde_json::Map::new();
    map.insert("name".to_owned(), Json::String(name.to_owned()));
    tagged("Variable", Json::Object(map))
}

fn only(value: &Json) -> (&str, &Json) {
    let map = value.as_object().unwrap();
    assert_eq!(map.len(), 1);
    let (tag, inner) = map.iter().next().unwrap();
    (tag.as_str(), inner)
}

fn name_of(value: &Json) -> String {
    value["name"].as_str().unwrap().to_owned()
}

fn address_text(ip: &Ip) -> String {
    match ip {
        Ip::V4(bits) => {
            let [a, b, c, d] = bits.to_be_bytes();
            format!("{a}.{b}.{c}.{d}")
        }
        Ip::V6(bits) => format!("{:#}", cidr::Ipv6Cidr::new_host((*bits).into())),
    }
}

fn address_of(text: &str) -> Ip {
    match text.parse::<cidr::IpCidr>().unwrap() {
        cidr::IpCidr::V4(host) => Ip::V4(host.first_address().into()),
        cidr::IpCidr::V6(host) => Ip::V6(host.first_address().into()),
    }
}

fn uint64_json(node: &NodeUint64) -> Json {
    match node {
        NodeUint64::Variable { name } => named(name),
        NodeUint64::Constant(value) => tagged("Constant", Json::from(*value)),
        NodeUint64::Add(NodeUint64Add::Uint64Uint64 { left, right }) => tagged(
            "Add",
            pair("Uint64Uint64", uint64_json(left), uint64_json(right)),
        ),
        NodeUint64::Subtract(NodeUint64Subtract::Uint64Uint64 { left, right }) => tagged(
            "Subtract",
            pair("Uint64Uint64", uint64_json(left), uint64_json(right)),
        ),
    }
}

fn uint64_of(value: &Json) -> NodeUint64 {
    let sides = |value: &Json| {
        let (tag, inner) = only(value);
        assert_eq!(tag, "Uint64Uint64");
        (Box::new(uint64_of(&inner["left"])), Box::new(uint64_of(&inner["right"])))
    };
    match only(value) {
        ("Variable", inner) => NodeUint64::Variable { name: name_of(inner) },
        ("Constant", inner) => NodeUint64::Constant(inner.as_u64().unwrap()),
        ("Add", inner) => {
            let (left, right) = sides(inner);
            NodeUint64::Add(NodeUint64Add::Uint64Uint64 { left, right })
        }
        ("Subtract", inner) => {
            let (left, right) = sides(inner);
            NodeUint64::Subtract(NodeUint64Subtract::Uint64Uint64 { left, right })
        }
        (tag, _) => panic!("{tag}"),
    }
}

fn int64_json(node: &NodeInt64) -> Json {
    match node {
        NodeInt64::Variable { name } => named(name),
        NodeInt64::Negative(NodeInt64Negative::Uint64(inner)) => {
            tagged("Negative", tagged("Uint64", uint64_json(inner)))
        }
    }
}

fn int64_of(value: &Json) -> NodeInt64 {
    match only(value) {
        ("Variable", inner) => NodeInt64::Variable { name: name_of(inner) },
        ("Negative", inner) => {
            let (tag, inner) = only(inner);
            assert_eq!(tag, "Uint64");
            NodeInt64::Negative(NodeInt64Negative::Uint64(Box::new(uint64_of(inner))))
        }
        (tag, _) => panic!("{tag}"),
    }
}

fn string_json(node: &NodeString) -> Json {
    match node {
        NodeString::Variable { name } => named(name),
        NodeString::Constant(value) => tagged("Constant", Json::String(value.clone())),
        NodeString::Add(NodeStringAdd::StringString { left, right }) => tagged(
            "Add",
            pair("StringString", string_json(left), string_json(right)),
        ),
    }
}

fn string_of(value: &Json) -> NodeString {
    match only(value) {
        ("Variable", inner) => NodeString::Variable { name: name_of(inner) },
        ("Constant", inner) => NodeString::Constant(inner.as_str().unwrap().to_owned()),
        ("Add", inner) => {
            let (tag, inner) = only(inner);
            assert_eq!(tag, "StringString");
            NodeString::Add(NodeStringAdd::StringString {
                left: Box::new(string_of(&inner["left"])),
                right: Box::new(string_of(&inner["right"])),
            })
        }
        (tag, _) => panic!("{tag}"),
    }
}

fn ip_json(node: &NodeIp) -> Json {
    match node {
        NodeIp::Variable { name } => named(name),
        NodeIp::Constant(value) => tagged("Constant", Json::String(address_text(value))),
    }
}

fn ip_of(value: &Json) -> NodeIp {
    match only(value) {
        ("Variable", inner) => NodeIp::Variable { name: name_of(inner) },
        ("Constant", inner) => NodeIp::Constant(address_of(inner.as_str().unwrap())),
        (tag, _) => panic!("{tag}"),
    }
}

fn cidr_json(node: &NodeCidr) -> Json {
    match node {
        NodeCidr::Variable { name } => named(name),
        NodeCidr::Constant(value) => tagged(
            "Constant",
            Json::String(format!(
                "{}/{}",
                address_text(&value.first_address()),
                value.network_length()
            )),
        ),
    }
}

fn cidr_of(value: &Json) -> NodeCidr {
    match only(value) {
        ("Variable", inner) => NodeCidr::Variable { name: name_of(inner) },
        ("Constant", inner) => {
            let (address, length) = inner.as_str().unwrap().split_once('/').unwrap();
            NodeCidr::Constant(Cidr::new(address_of(address), length.parse().unwrap()).unwrap())
        }
        (tag, _) => panic!("{tag}"),
    }
}

fn regex_json(node: &NodeRegex) -> Json {
    match node {
        NodeRegex::Variable { name } => named(name),
        NodeRegex::Constant(value) => tagged("Constant", Json::String(value.as_str().to_owned())),
    }
}

fn regex_of(value: &Json) -> NodeRegex {
    match only(value) {
        ("Variable", inner) => NodeRegex::Variable { name: name_of(inner) },
        ("Constant", inner) => NodeRegex::Constant(Pattern::new(inner.as_str().unwrap()).unwrap()),
        (tag, _) => panic!("{tag}"),
    }
}

fn boolean_json(node: &NodeBoolean) -> Json {
    match node {
        NodeBoolean::Variable { name } => named(name),
        NodeBoolean::Constant(value) => tagged("Constant", Json::Bool(*value)),
        NodeBoolean::Not(NodeBooleanNot::Boolean(inner)) => {
            tagged("Not", tagged("Boolean", boolean_json(inner)))
        }
        NodeBoolean::Both(NodeBooleanBoth::BooleanBoolean { left, right }) => tagged(
            "Both",
            pair("BooleanBoolean", boolean_json(left), boolean_json(right)),
        ),
        NodeBoolean::Either(NodeBooleanEither::BooleanBoolean { left, right }) => tagged(
            "Either",
            pair("BooleanBoolean", boolean_json(left), boolean_json(right)),
        ),
        NodeBoolean::Within(NodeBooleanWithin::IpCidr { left, right }) => {
            tagged("Within", pair("IpCidr", ip_json(left), cidr_json(right)))
        }
        NodeBoolean::Equals(equals) => tagged(
            "Equals",
            match equals {
                NodeBooleanEquals::BooleanBoolean { left, right } => {
                    pair("BooleanBoolean", boolean_json(left), boolean_json(right))
                }
                NodeBooleanEquals::StringString { left, right } => {
                    pair("StringString", string_json(left), string_json(right))
                }
                NodeBooleanEquals::Uint64Uint64 { left, right } => {
                    pair("Uint64Uint64", uint64_json(left), uint64_json(right))
                }
                NodeBooleanEquals::Int64Int64 { left, right } => {
                    pair("Int64Int64", int64_json(left), int64_json(right))
                }
                NodeBooleanEquals::IpIp { left, right } => {
                    pair("IpIp", ip_json(left), ip_json(right))
                }
            },
        ),
        NodeBoolean::Matches(NodeBooleanMatches::StringRegex { left, right }) => tagged(
            "Matches",
            pair("StringRegex", string_json(left), regex_json(right)),
        ),
    }
}

fn boolean_of(value: &Json) -> NodeBoolean {
    let boxed = |value: &Json| Box::new(boolean_of(value));
    match only(value) {
        ("Variable", inner) => NodeBoolean::Variable { name: name_of(inner) },
        ("Constant", inner) => NodeBoolean::Constant(inner.as_bool().unwrap()),
        ("Not", inner) => {
            let (tag, inner) = only(inner);
            assert_eq!(tag, "Boolean");
            NodeBoolean::Not(NodeBooleanNot::Boolean(boxed(inner)))
        }
        ("Both", inner) => {
            let (tag, inner) = only(inner);
            assert_eq!(tag, "BooleanBoolean");
            NodeBoolean::Both(NodeBooleanBoth::BooleanBoolean {
                left: boxed(&inner["left"]),
                right: boxed(&inner["right"]),
            })
        }
        ("Either", inner) => {
            let (tag, inner) = only(inner);
            assert_eq!(tag, "BooleanBoolean");
            NodeBoolean::Either(NodeBooleanEither::BooleanBoolean {
                left: boxed(&inner["left"]),
                right: boxed(&inner["right"]),
            })
        }
        ("Within", inner) => {
            let (tag, inner) = only(inner);
            assert_eq!(tag, "IpCidr");
            NodeBoolean::Within(NodeBooleanWithin::IpCidr {
                left: ip_of(&inner["left"]),
                right: cidr_of(&inner["right"]),
            })
        }
        ("Equals", inner) => {
            let (tag, inner) = only(inner);
            let (left, right) = (&inner["left"], &inner["right"]);
            NodeBoolean::Equals(match tag {
                "BooleanBoolean" => NodeBooleanEquals::BooleanBoolean {
                    left: boxed(left),
                    right: boxed(right),
                },
                "StringString" => NodeBooleanEquals::StringString {
                    left: string_of(left),
                    right: string_of(right),
                },
                "Uint64Uint64" => NodeBooleanEquals::Uint64Uint64 {
                    left: uint64_of(left),
                    right: uint64_of(right),
                },
                "Int64Int64" => NodeBooleanEquals::Int64Int64 {
                    left: int64_of(left),
                    right: int64_of(right),
                },
                "IpIp" => NodeBooleanEquals::IpIp { left: ip_of(left), right: ip_of(right) },
                tag => panic!("{tag}"),
            })
        }
        ("Matches", inner) => {
            let (tag, inner) = only(inner);
            assert_eq!(tag, "StringRegex");
            NodeBoolean::Matches(NodeBooleanMatches::StringRegex {
                left: string_of(&inner["left"]),
                right: regex_of(&inner["right"]),
            })
        }
        (tag, _) => panic!("{tag}"),
    }
}

fn variables() -> Schema {
    let mut variables = Schema::new();
    assert!(variables.insert("a", Variable::Uint64));
    variables
}

#[test]
fn test_serialize() {
    let ast = chert::parse("a == 1", &variables()).unwrap();
    let ast = serde_json::to_string_pretty(&boolean_json(ast.get_root())).unwrap();

    let ast: NodeBoolean = boolean_of(&serde_json::from_str(&ast).unwrap());
    let engine = chert::compile_unsafe(variables(), Vec::from([(0, ast)]));
    engine.eval(&vec![Value::Uint64(1)]);
}

#[test]
fn test_serialize_with_id() {
    let ast = chert::parse("a == 1", &variables()).unwrap();
    let ast = serde_json::to_string_pretty(&Json::Array(Vec::from([Json::Array(Vec::from([
        Json::from(0),
        boolean_json(ast.get_root()),
    ]))])))
    .unwrap();

    let asts: Vec<(i32, NodeBoolean)> = serde_json::from_str::<Json>(&ast)
        .unwrap()
        .as_array()
        .unwrap()
        .iter()
        .map(|entry| (entry[0].as_i64().unwrap() as i32, boolean_of(&entry[1])))
        .collect();
    let engine = chert::compile_unsafe(variables(), asts);
    engine.eval(&vec![Value::Uint64(1)]);
}

#[test]
fn a_tree_written_out_and_read_back_matches_the_same_records() {
    let mut variables = Schema::new();
    for (name, kind) in [
        ("a", Variable::Uint64),
        ("b", Variable::String),
        ("c", Variable::Ip),
        ("d", Variable::Cidr),
        ("g", Variable::Regex),
        ("t", Variable::Boolean),
        ("i", Variable::Int64),
    ] {
        assert!(variables.insert(name, kind));
    }
    let texts = [
        "a + 1 == 3",
        "a - 1 == 0 or b + 'x' == 'yx'",
        "c in d and c == 10.0.0.1",
        "c in 10.0.0.0/8",
        "b ~ g or b ~ m/^z/",
        "t == (a == 2) and i == -a",
        "t",
        "true",
    ];
    let mut direct = Vec::new();
    let mut read_back = Vec::new();
    for (id, text) in texts.iter().enumerate() {
        let ast = chert::parse(text, &variables).unwrap();
        let written = serde_json::to_string(&boolean_json(ast.get_root())).unwrap();
        let node = boolean_of(&serde_json::from_str(&written).unwrap());
        assert!(node.check(&variables));
        assert_eq!(serde_json::to_string(&boolean_json(&node)).unwrap(), written);
        direct.push((id, ast));
        read_back.push((id, node));
    }
    let first = chert::compile(variables.copy(), direct);
    let second = chert::compile_unsafe(variables, read_back);
    let record = |a: u64, b: &str, c: Ip, t: bool, i: i64| {
        vec![
            Value::Uint64(a),
            Value::String(b.to_owned()),
            Value::Ip(c),
            Value::Cidr(Cidr::new(Ip::v4(10, 0, 0, 0), 24).unwrap()),
            Value::Regex(Pattern::new("y$").unwrap()),
            Value::Boolean(t),
            Value::Int64(i),
        ]
    };
    for record in [
        record(2, "y", Ip::v4(10, 0, 0, 1), true, -2),
        record(1, "zz", Ip::v4(10, 0, 1, 1), false, -1),
        record(0, "", Ip::v4(11, 0, 0, 1), true, 0),
        record(u64::MAX, "xy", Ip::V6(1), false, 1),
    ] {
        let expected = first.eval(&record);
        assert_eq!(second.eval(&record), expected);
        assert!(expected.contains(&&7));
    }
}
