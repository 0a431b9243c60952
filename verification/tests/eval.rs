use chert::parse::nodes::Node;
use chert::variables::{Schema, Value, Variable};

#[test]
fn test_1() {
    let mut variables = Schema::new();
    assert!(variables.insert("a", Variable::Uint64));
    assert!(variables.insert("b", Variable::String));
    match chert::lex::lex("(a + 1) == 3") {
        Ok(tokens) => {
            let node = chert::parse::parse(tokens, &variables).unwrap().into_root();
            if let Node::Boolean(node) = node {
                let engine = chert::compile::compile_unsafe(variables, Vec::from([(0, node)]));
                let matched = engine.eval(&vec![
                    Value::Uint64(2),
                    Value::String("meow".to_owned()),
                ]);
                assert!(matched == [&0]);
            } else {
                panic!("the expression is no predicate");
            }
        }
        Err(e) => unreachable!("{e:?}"),
    }
}
