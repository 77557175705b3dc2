use whatodo::codec::{todo_from_tokens, tokenize_todo_string, TodoTokens};
use whatodo::error::WhatodoError;
use whatodo::todo::{from_todo_string, Todo};

fn same_tree(a: &Todo, b: &Todo) -> bool {
    a.complete == b.complete
        && a.contents == b.contents
        && a.sub_todos.len() == b.sub_todos.len()
        && a.sub_todos
            .iter()
            .zip(b.sub_todos.iter())
            .all(|(x, y)| same_tree(x, y))
}

fn sample_tree() -> Todo {
    let mut root = Todo::new(None, "Plan trip".to_string());
    let mut tickets = Todo::new(Some(true), "Tickets".to_string());
    tickets
        .sub_todos
        .push(Todo::new(Some(false), "Compare prices".to_string()));
    tickets
        .sub_todos
        .push(Todo::new(Some(true), "Pay".to_string()));
    root.sub_todos.push(tickets);
    root.sub_todos
        .push(Todo::new(Some(false), "Pack".to_string()));
    root
}

#[test]
fn nested_serialization_one_complete_child() {
    let mut example = Todo::new(Some(false), "Something".to_string());
    example
        .sub_todos
        .push(Todo::new(Some(true), "This is a test".to_string()));
    assert_eq!("0|Something|[1|This is a test|]", example.to_todos());
}

#[test]
fn serialization_of_deeper_tree() {
    assert_eq!(
        "0|Plan trip|[1|Tickets|[0|Compare prices|%1|Pay|]%0|Pack|]",
        sample_tree().to_todos()
    );
}

#[test]
fn round_trip_keeps_whole_tree() {
    let tree = sample_tree();
    let back = from_todo_string(tree.to_todos()).unwrap();
    assert!(same_tree(&tree, &back));
}

#[test]
fn round_trip_keeps_empty_root_contents() {
    let mut tree = Todo::new(Some(true), String::new());
    tree.sub_todos.push(Todo::new(None, "x".to_string()));
    let back = from_todo_string(tree.to_todos()).unwrap();
    assert!(same_tree(&tree, &back));
}

#[test]
fn tokenizer_splits_nested_line() {
    let tokens = tokenize_todo_string(&"0|A|[1|B|]".to_string());
    assert_eq!(tokens.len(), 10);
    assert!(matches!(&tokens[0], TodoTokens::TodoValue(v) if v == "0"));
    assert!(matches!(tokens[1], TodoTokens::FieldSeparator));
    assert!(matches!(&tokens[2], TodoTokens::TodoValue(v) if v == "A"));
    assert!(matches!(tokens[3], TodoTokens::FieldSeparator));
    assert!(matches!(tokens[4], TodoTokens::TodoArrBeg));
    assert!(matches!(&tokens[5], TodoTokens::TodoValue(v) if v == "1"));
    assert!(matches!(tokens[6], TodoTokens::FieldSeparator));
    assert!(matches!(&tokens[7], TodoTokens::TodoValue(v) if v == "B"));
    assert!(matches!(tokens[8], TodoTokens::FieldSeparator));
    assert!(matches!(tokens[9], TodoTokens::TodoArrEnd));
}

#[test]
fn tokenizer_reads_contents_raw() {
    let tokens = tokenize_todo_string(&"1|a [b] %c|".to_string());
    assert_eq!(tokens.len(), 4);
    assert!(matches!(&tokens[2], TodoTokens::TodoValue(v) if v == "a [b] %c"));
}

#[test]
fn tokens_build_a_leaf() {
    let tokens = vec![
        TodoTokens::TodoValue("1".to_string()),
        TodoTokens::FieldSeparator,
        TodoTokens::TodoValue("Done".to_string()),
        TodoTokens::FieldSeparator,
    ];
    let t = todo_from_tokens(tokens).unwrap();
    assert!(t.complete);
    assert_eq!(t.contents, "Done");
    assert!(t.sub_todos.is_empty());
}

#[test]
fn bad_flag_is_malformed() {
    assert!(matches!(
        from_todo_string("2|x|".to_string()),
        Err(WhatodoError::MalformedTodo)
    ));
}

#[test]
fn empty_line_is_malformed() {
    assert!(matches!(
        from_todo_string(String::new()),
        Err(WhatodoError::MalformedTodo)
    ));
}

#[test]
fn unclosed_children_are_malformed() {
    assert!(matches!(
        from_todo_string("0|A|[1|B|".to_string()),
        Err(WhatodoError::MalformedTodo)
    ));
}

#[test]
fn empty_children_are_malformed() {
    assert!(matches!(
        from_todo_string("0|A|[]".to_string()),
        Err(WhatodoError::MalformedTodo)
    ));
}

#[test]
fn trailing_text_is_malformed() {
    assert!(matches!(
        from_todo_string("0|A|extra".to_string()),
        Err(WhatodoError::MalformedTodo)
    ));
}

#[test]
fn equality_looks_at_contents_only() {
    let mut a = Todo::new(Some(true), "Same".to_string());
    a.sub_todos.push(Todo::new(None, "child".to_string()));
    let b = Todo::new(Some(false), "Same".to_string());
    assert!(a == b);
    assert!(a != Todo::new(Some(true), "Other".to_string()));
}

#[test]
fn shown_forms() {
    let t = Todo::new(Some(true), "Buy milk".to_string());
    assert_eq!(t.summary(), "[X] - Buy milk");
    assert_eq!(
        sample_tree().to_string(),
        "[ ] - Plan trip\n- [X] - Tickets\n- - [ ] - Compare prices\n- - [X] - Pay\n- [ ] - Pack"
    );
    assert_eq!(sample_tree().summary(), "[ ] - Plan trip");
}

#[test]
fn new_defaults_to_incomplete() {
    let t = Todo::new(None, "x".to_string());
    assert!(!t.complete);
    assert!(t.sub_todos.is_empty());
}
