use chert::pattern::Pattern;

#[test]
fn a_pattern_compiles_or_says_why_not() {
    assert!(Pattern::new("f..").is_ok());
    assert!(Pattern::new("").is_ok());
    let refused = Pattern::new("(").unwrap_err();
    assert!(!refused.is_empty());
    assert!(refused != "(");
    assert!(Pattern::new("a{2,1}").is_err());
}

#[test]
fn a_pattern_finds_an_occurrence_anywhere() {
    let pattern = Pattern::new("b+c").unwrap();
    assert!(pattern.is_match("aabbbcc"));
    assert!(!pattern.is_match("aacc"));
    assert!(!pattern.is_match("b+c"));
    assert!(Pattern::new("").unwrap().is_match("anything"));
    assert!(!Pattern::new("^$").unwrap().is_match("anything"));
}

#[test]
fn a_pattern_keeps_its_text() {
    let pattern = Pattern::new(r"fo+\d").unwrap();
    assert_eq!(pattern.as_str(), r"fo+\d");
    let copy = pattern.clone();
    assert_eq!(copy.as_str(), r"fo+\d");
    assert!(copy.is_match("xfoo1"));
    assert!(!copy.is_match("xfo"));
    assert!(copy == pattern);
    assert!(copy != Pattern::new("fo+").unwrap());
}
