use expert_system::input::{dedup, first_invalid, sanitize, Input, InputError};

fn lines(items: &[&str]) -> Vec<String> {
    items.iter().map(|l| l.to_string()).collect()
}

#[test]
fn spacing() {
    assert_eq!(
        Input::try_from(lines(&["A=>Z", "=A", "?Z"])),
        Ok(Input {
            rules: vec!["A=>Z".to_string()],
            facts: "A".to_string(),
            queries: "Z".to_string(),
        })
    );
}

#[test]
fn order() {
    assert_eq!(
        Input::try_from(lines(&["?Z", "=A", "A=>Z"])),
        Ok(Input {
            rules: vec!["A=>Z".to_string()],
            facts: "A".to_string(),
            queries: "Z".to_string(),
        })
    );
}

#[test]
fn rule_order() {
    assert_eq!(
        Input::try_from(lines(&["A=>Z", "=A", "Z=>A", "?Z"])),
        Ok(Input {
            rules: vec!["A=>Z".to_string(), "Z=>A".to_string()],
            facts: "A".to_string(),
            queries: "Z".to_string(),
        })
    );
}

#[test]
fn no_rules() {
    assert_eq!(
        Input::try_from(lines(&["=A", "?Z"])),
        Ok(Input { rules: vec![], facts: "A".to_string(), queries: "Z".to_string() })
    );
}

#[test]
fn valid() {
    assert_eq!(
        Input::try_from(lines(&["A=>Z", "=A", "?Z"])),
        Ok(Input {
            rules: vec!["A=>Z".to_string()],
            facts: "A".to_string(),
            queries: "Z".to_string(),
        })
    );
}

#[test]
fn empty_facts() {
    assert_eq!(
        Input::try_from(lines(&["=", "?Z"])),
        Ok(Input { rules: vec![], facts: "".to_string(), queries: "Z".to_string() })
    );
}

#[test]
fn empty_queries() {
    assert_eq!(
        Input::try_from(lines(&["=A", "?"])),
        Ok(Input { rules: vec![], facts: "A".to_string(), queries: "".to_string() })
    );
}

#[test]
fn duplicate_facts() {
    assert_eq!(
        Input::try_from(lines(&["=AA", "?"])),
        Ok(Input { rules: vec![], facts: "A".to_string(), queries: "".to_string() })
    );
}

#[test]
fn duplicate_queries() {
    assert_eq!(
        Input::try_from(lines(&["=", "?ZZ"])),
        Ok(Input { rules: vec![], facts: "".to_string(), queries: "Z".to_string() })
    );
}

#[test]
fn error_empty() {
    let result = Input::try_from(Vec::<String>::new());
    assert!(result.is_err());
    assert_eq!(result.unwrap_err().message(), "No facts in input file");
}

#[test]
fn error_no_facts() {
    let result = Input::try_from(lines(&["?"]));
    assert!(result.is_err());
    assert_eq!(result.unwrap_err().message(), "No facts in input file");
}

#[test]
fn error_no_queries() {
    let result = Input::try_from(lines(&["="]));
    assert!(result.is_err());
    assert_eq!(result.unwrap_err().message(), "No queries in input file");
}

#[test]
fn error_double_facts() {
    let result = Input::try_from(lines(&["=", "=", "?"]));
    assert!(result.is_err());
    assert_eq!(result.unwrap_err().message(), "Multiple facts found in input file");
}

#[test]
fn error_double_queries() {
    let result = Input::try_from(lines(&["=", "?", "?"]));
    assert!(result.is_err());
    assert_eq!(result.unwrap_err().message(), "Multiple queries found in input file");
}

#[test]
fn error_invalid_identifiers() {
    let facts = Input::try_from(lines(&["=Ab", "?Z"]));
    assert_eq!(facts, Err(InputError::InvalidFact('b')));
    assert_eq!(facts.unwrap_err().message(), "Invalid identifier in facts: 'b'");
    let queries = Input::try_from(lines(&["=A", "?Z+"]));
    assert_eq!(queries, Err(InputError::InvalidQuery('+')));
    assert_eq!(queries.unwrap_err().message(), "Invalid identifier in query: '+'");
}

#[test]
fn error_order_facts_before_queries() {
    assert_eq!(Input::try_from(lines(&["?1", "=2"])), Err(InputError::InvalidFact('2')));
    assert_eq!(Input::try_from(lines(&["?1"])), Err(InputError::NoFacts));
    assert_eq!(Input::try_from(lines(&["=1"])), Err(InputError::InvalidFact('1')));
    assert_eq!(Input::try_from(lines(&["=", "=", "?", "?"])), Err(InputError::MultipleFacts));
    assert_eq!(Input::try_from(lines(&["?", "?", "=", "="])), Err(InputError::MultipleQueries));
}

#[test]
fn comments_and_blank_space_are_dropped() {
    assert_eq!(
        Input::try_from(lines(&["# rules", "A => Z # first", "", "   ", "= A B", "? Z\t"])),
        Ok(Input {
            rules: vec!["A=>Z".to_string()],
            facts: "AB".to_string(),
            queries: "Z".to_string(),
        })
    );
}

#[test]
fn sanitize_lines() {
    assert_eq!(sanitize(" A + B "), "A+B");
    assert_eq!(sanitize("A#B"), "A");
    assert_eq!(sanitize("#"), "");
    assert_eq!(sanitize(""), "");
}

#[test]
fn dedup_keeps_first_occurrence() {
    assert_eq!(dedup("ABACBD"), "ABCD");
    assert_eq!(dedup(""), "");
}

#[test]
fn first_invalid_character() {
    assert_eq!(first_invalid("ABZ"), None);
    assert_eq!(first_invalid("AbZ?"), Some('b'));
    assert_eq!(first_invalid(""), None);
}

#[test]
fn to_text_lists_rules_facts_and_queries() {
    let input = Input::try_from(lines(&["A=>Z", "=AB", "Z=>A", "?Z"])).unwrap();
    assert_eq!(input.to_text(), "Rules:\n  A=>Z\n  Z=>A\nFacts: AB\nQueries: Z\n");
    let bare = Input::try_from(lines(&["=", "?"])).unwrap();
    assert_eq!(bare.to_text(), "Rules:\nFacts: \nQueries: \n");
}
