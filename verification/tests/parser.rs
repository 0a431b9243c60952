use chert::lex::{lex, Token};
use chert::parse::nodes::boolean::{
    NodeBoolean, NodeBooleanBoth, NodeBooleanEither, NodeBooleanEquals, NodeBooleanNot,
};
use chert::parse::nodes::int64::{NodeInt64, NodeInt64Negative};
use chert::parse::nodes::string::{NodeString, NodeStringAdd};
use chert::parse::nodes::uint64::{NodeUint64, NodeUint64Add, NodeUint64Subtract};
use chert::parse::nodes::Node;
use chert::parse::operators::{
    Associativity, BinaryOperator, Operator, ScopeOperator, UnaryOperator,
};
use chert::parse::{parse, parse_boolean, Error};
use chert::variables::{Schema, Variable};

fn schema() -> Schema {
    let mut schema = Schema::new();
    for (name, kind) in [
        ("a", Variable::Uint64),
        ("b", Variable::String),
        ("c", Variable::Ip),
        ("d", Variable::Cidr),
        ("g", Variable::Regex),
        ("t", Variable::Boolean),
        ("i", Variable::Int64),
    ] {
        assert!(schema.insert(name, kind));
    }
    schema
}

fn tree(text: &str) -> Result<Node, Error> {
    parse(lex(text).unwrap(), &schema()).map(|ast| ast.into_root())
}

fn shape(text: &str) -> String {
    format!("{:?}", tree(text).unwrap())
}

#[test]
fn operators_spell_as_the_language_says() {
    assert_eq!(UnaryOperator::parse("!"), Some(UnaryOperator::Not));
    assert_eq!(UnaryOperator::parse("+"), Some(UnaryOperator::Positive));
    assert_eq!(UnaryOperator::parse("-"), Some(UnaryOperator::Negative));
    assert_eq!(UnaryOperator::parse("~"), None);
    assert_eq!(BinaryOperator::parse("**"), Some(BinaryOperator::Exponent));
    assert_eq!(BinaryOperator::parse("&&"), Some(BinaryOperator::Both));
    assert_eq!(BinaryOperator::parse("||"), Some(BinaryOperator::Either));
    assert_eq!(BinaryOperator::parse("=="), Some(BinaryOperator::Equals));
    assert_eq!(BinaryOperator::parse("+"), Some(BinaryOperator::Add));
    assert_eq!(BinaryOperator::parse("-"), Some(BinaryOperator::Subtract));
    assert_eq!(BinaryOperator::parse("~"), Some(BinaryOperator::Matches));
    assert_eq!(BinaryOperator::parse("*"), None);
    assert_eq!(BinaryOperator::parse("and"), None);
}

#[test]
fn precedence_rises_from_or_to_the_unary_operators() {
    let level = |operator: Operator| operator.specificity();
    let order = [
        level(Operator::Scope(ScopeOperator::Close)),
        level(Operator::Binary(BinaryOperator::Either)),
        level(Operator::Binary(BinaryOperator::Both)),
        level(Operator::Binary(BinaryOperator::Equals)),
        level(Operator::Binary(BinaryOperator::Within)),
        level(Operator::Binary(BinaryOperator::Add)),
        level(Operator::Binary(BinaryOperator::Multiply)),
        level(Operator::Binary(BinaryOperator::Exponent)),
        level(Operator::Unary(UnaryOperator::Not)),
    ];
    assert!(order.windows(2).all(|pair| pair[0] < pair[1]));
    assert_eq!(level(Operator::Scope(ScopeOperator::Open('('))), 0);
    assert_eq!(level(Operator::Unary(UnaryOperator::Negative)), 255);
    assert_eq!(
        level(Operator::Binary(BinaryOperator::Matches)),
        level(Operator::Binary(BinaryOperator::Within))
    );
    assert_eq!(
        level(Operator::Binary(BinaryOperator::Add)),
        level(Operator::Binary(BinaryOperator::Subtract))
    );
    assert_eq!(
        level(Operator::Binary(BinaryOperator::Divide)),
        level(Operator::Binary(BinaryOperator::Modulo))
    );
}

#[test]
fn unary_scope_and_exponent_group_to_the_right() {
    assert_eq!(
        Operator::Unary(UnaryOperator::Not).associativity(),
        Associativity::Right
    );
    assert_eq!(
        Operator::Scope(ScopeOperator::Open('(')).associativity(),
        Associativity::Right
    );
    assert_eq!(
        Operator::Binary(BinaryOperator::Exponent).associativity(),
        Associativity::Right
    );
    assert_eq!(
        Operator::Binary(BinaryOperator::Add).associativity(),
        Associativity::Left
    );
    assert_eq!(
        Operator::Binary(BinaryOperator::Equals).associativity(),
        Associativity::Left
    );
}

#[test]
fn and_binds_tighter_than_or_and_looser_than_equals() {
    assert_eq!(shape("t or t and t"), shape("t or (t and t)"));
    assert_eq!(shape("t and t or t"), shape("(t and t) or t"));
    assert_eq!(shape("a == 1 and b == 'x'"), shape("(a == 1) and (b == 'x')"));
    assert_eq!(shape("c in d == t"), shape("(c in d) == t"));
    assert_eq!(shape("b + 'x' ~ g"), shape("(b + 'x') ~ g"));
    assert_eq!(shape("a + 1 == 3"), shape("(a + 1) == 3"));
}

#[test]
fn binary_operators_group_to_the_left() {
    match tree("a - 1 - 2").unwrap() {
        Node::Uint64(NodeUint64::Subtract(NodeUint64Subtract::Uint64Uint64 { left, right })) => {
            assert!(matches!(*right, NodeUint64::Constant(2)));
            assert!(matches!(*left, NodeUint64::Subtract(_)));
        }
        other => panic!("{other:?}"),
    }
    assert_eq!(shape("a - (1 - 2)"), shape("a-(1-2)"));
    assert!(shape("a - (1 - 2)") != shape("a - 1 - 2"));
}

#[test]
fn signs_are_unary_where_no_operand_stands_before() {
    match tree("-a").unwrap() {
        Node::Int64(NodeInt64::Negative(NodeInt64Negative::Uint64(inner))) => {
            assert!(matches!(*inner, NodeUint64::Variable { .. }))
        }
        other => panic!("{other:?}"),
    }
    assert!(matches!(tree("+a").unwrap(), Node::Uint64(NodeUint64::Variable { .. })));
    assert!(matches!(
        tree("1 + +2").unwrap(),
        Node::Uint64(NodeUint64::Add(NodeUint64Add::Uint64Uint64 { .. }))
    ));
    assert!(matches!(
        tree("(1) - 2").unwrap(),
        Node::Uint64(NodeUint64::Subtract(_))
    ));
    assert!(matches!(
        tree("i == -(1 + 2)").unwrap(),
        Node::Boolean(NodeBoolean::Equals(NodeBooleanEquals::Int64Int64 { .. }))
    ));
}

#[test]
fn keywords_are_constants_and_operators() {
    assert!(matches!(
        tree("true").unwrap(),
        Node::Boolean(NodeBoolean::Constant(true))
    ));
    assert!(matches!(
        tree("false").unwrap(),
        Node::Boolean(NodeBoolean::Constant(false))
    ));
    assert!(matches!(
        tree("t and t").unwrap(),
        Node::Boolean(NodeBoolean::Both(NodeBooleanBoth::BooleanBoolean { .. }))
    ));
    assert!(matches!(
        tree("t && t").unwrap(),
        Node::Boolean(NodeBoolean::Both(_))
    ));
    assert!(matches!(
        tree("t or t").unwrap(),
        Node::Boolean(NodeBoolean::Either(NodeBooleanEither::BooleanBoolean { .. }))
    ));
    assert!(matches!(
        tree("t || t").unwrap(),
        Node::Boolean(NodeBoolean::Either(_))
    ));
}

#[test]
fn fields_become_variables_of_their_type() {
    assert!(matches!(tree("a").unwrap(), Node::Uint64(NodeUint64::Variable { .. })));
    assert!(matches!(tree("b").unwrap(), Node::String(NodeString::Variable { .. })));
    assert!(matches!(tree("c").unwrap(), Node::Ip(_)));
    assert!(matches!(tree("d").unwrap(), Node::Cidr(_)));
    assert!(matches!(tree("g").unwrap(), Node::Regex(_)));
    assert!(matches!(tree("t").unwrap(), Node::Boolean(NodeBoolean::Variable { .. })));
    assert!(matches!(tree("i").unwrap(), Node::Int64(NodeInt64::Variable { .. })));
}

#[test]
fn a_parsed_tree_fits_the_schema() {
    let variables = schema();
    for text in ["a + 1 == 3", "b + 'x' == b", "c in d and t", "i == -a or b ~ g"] {
        let ast = parse_boolean(lex(text).unwrap(), &variables).unwrap();
        assert!(ast.get_root().check(&variables));
    }
    let mut other = Schema::new();
    assert!(other.insert("a", Variable::String));
    let ast = parse_boolean(lex("a == 1").unwrap(), &variables).unwrap();
    assert!(!ast.get_root().check(&other));
    assert!(!ast.get_root().check(&Schema::new()));
}

#[test]
fn string_concatenation_and_both_kinds_of_add() {
    assert!(matches!(
        tree("b + 'x'").unwrap(),
        Node::String(NodeString::Add(NodeStringAdd::StringString { .. }))
    ));
    assert!(matches!(tree("a + 1").unwrap(), Node::Uint64(NodeUint64::Add(_))));
}

#[test]
fn only_the_integer_part_of_a_number_counts() {
    assert!(matches!(tree("12.75").unwrap(), Node::Uint64(NodeUint64::Constant(12))));
    assert!(matches!(tree(".75").unwrap(), Node::Uint64(NodeUint64::Constant(0))));
    assert!(matches!(
        tree("18446744073709551615").unwrap(),
        Node::Uint64(NodeUint64::Constant(u64::MAX))
    ));
}

#[test]
fn a_number_too_large_or_a_duration_is_bad_syntax() {
    assert!(matches!(tree("18446744073709551616"), Err(Error::BadSyntax)));
    assert!(matches!(tree("a == 1w"), Err(Error::BadSyntax)));
}

#[test]
fn unknown_names_are_refused_with_their_name() {
    match tree("nope == 1") {
        Err(Error::UnknownIdentifier(name)) => assert_eq!(name, "nope"),
        other => panic!("{other:?}"),
    }
}

#[test]
fn operands_of_the_wrong_type_are_handed_back() {
    match tree("a + b") {
        Err(Error::BadBinaryOperands { operator, left, right }) => {
            assert_eq!(operator, BinaryOperator::Add);
            assert!(matches!(left, Node::Uint64(NodeUint64::Variable { .. })));
            assert!(matches!(right, Node::String(NodeString::Variable { .. })));
        }
        other => panic!("{other:?}"),
    }
    match tree("-b") {
        Err(Error::BadUnaryOperands { operator, node }) => {
            assert_eq!(operator, UnaryOperator::Negative);
            assert!(matches!(node, Node::String(_)));
        }
        other => panic!("{other:?}"),
    }
    assert!(matches!(tree("a - b"), Err(Error::BadBinaryOperands { .. })));
    assert!(matches!(tree("a in d"), Err(Error::BadBinaryOperands { .. })));
    assert!(matches!(tree("a ~ g"), Err(Error::BadBinaryOperands { .. })));
    assert!(matches!(tree("a == b"), Err(Error::BadBinaryOperands { .. })));
    assert!(matches!(tree("a and t"), Err(Error::BadBinaryOperands { .. })));
    assert!(matches!(tree("a or t"), Err(Error::BadBinaryOperands { .. })));
    assert!(matches!(tree("+b"), Err(Error::BadUnaryOperands { .. })));
}

#[test]
fn signs_that_are_no_operator_where_they_stand() {
    match tree("== 1") {
        Err(Error::UnknownUnaryOperator(sign)) => assert_eq!(sign, "=="),
        other => panic!("{other:?}"),
    }
    assert!(matches!(tree("~ g"), Err(Error::UnknownUnaryOperator(_))));
    let tokens = vec![
        (Token::Number("1".into()), 0..1),
        (Token::Operator("!".into()), 1..2),
        (Token::Number("2".into()), 2..3),
    ];
    match parse(tokens, &schema()) {
        Err(Error::UnknownBinaryOperator(sign)) => assert_eq!(sign, "!"),
        other => panic!("{other:?}"),
    }
}

#[test]
fn tokens_made_by_hand_reach_what_the_lexer_never_gives() {
    let not = vec![
        (Token::Operator("!".into()), 0..1),
        (Token::Identifier("t".into()), 1..2),
    ];
    assert!(matches!(
        parse(not, &schema()).unwrap().into_root(),
        Node::Boolean(NodeBoolean::Not(NodeBooleanNot::Boolean(_)))
    ));
    let power = vec![
        (Token::Number("2".into()), 0..1),
        (Token::Operator("**".into()), 1..3),
        (Token::Number("3".into()), 3..4),
    ];
    match parse(power, &schema()) {
        Err(Error::BadBinaryOperands { operator, .. }) => {
            assert_eq!(operator, BinaryOperator::Exponent)
        }
        other => panic!("{other:?}"),
    }
}

#[test]
fn an_operator_without_its_operand_misses_it() {
    assert!(matches!(tree("a =="), Err(Error::MissingOperand)));
    assert!(matches!(tree("and"), Err(Error::MissingOperand)));
    assert!(matches!(tree("-"), Err(Error::MissingOperand)));
    assert!(matches!(tree("a + (- )"), Err(Error::MissingOperand)));
}

#[test]
fn more_than_one_tree_is_unfinished_and_none_is_empty() {
    assert!(matches!(tree("a a"), Err(Error::Unfinished)));
    assert!(matches!(tree("1 2 3"), Err(Error::Unfinished)));
    assert!(matches!(tree(""), Err(Error::Empty)));
    assert!(matches!(tree("   "), Err(Error::Empty)));
    assert!(matches!(tree("()"), Err(Error::Empty)));
}

#[test]
fn parentheses_scope_and_must_match() {
    assert_eq!(shape("1 + (2) + 3"), shape("1 + 2 + 3"));
    assert_eq!(shape("((a))"), shape("a"));
    assert!(matches!(tree("a)"), Err(Error::NonexistentScopeClose)));
    assert!(matches!(tree(")"), Err(Error::NonexistentScopeClose)));
    assert!(matches!(tree("(a))"), Err(Error::NonexistentScopeClose)));
    assert_eq!(shape("(a + 1"), shape("a + 1"));
    assert!(matches!(tree("1 + (2"), Err(Error::Unfinished)));
}

#[test]
fn the_boolean_entry_point_refuses_other_types() {
    let variables = schema();
    assert!(matches!(
        parse_boolean(lex("a + 1").unwrap(), &variables),
        Err(Error::NotBoolean)
    ));
    assert!(matches!(
        parse_boolean(lex("b").unwrap(), &variables),
        Err(Error::NotBoolean)
    ));
    assert!(parse_boolean(lex("t").unwrap(), &variables).is_ok());
    assert!(matches!(
        parse_boolean(lex("a ==").unwrap(), &variables),
        Err(Error::MissingOperand)
    ));
}

#[test]
fn a_lexer_fault_comes_before_any_parsing() {
    let variables = schema();
    assert!(matches!(
        chert::parse("nope == 'abc", &variables),
        Err(chert::ParseError::Lex(chert::lex::Error::Unfinished))
    ));
    assert!(matches!(
        chert::ParseError::from(chert::lex::Error::BadSyntax),
        chert::ParseError::Lex(chert::lex::Error::BadSyntax)
    ));
    assert!(matches!(
        chert::ParseError::from(Error::Empty),
        chert::ParseError::Parse(Error::Empty)
    ));
}
