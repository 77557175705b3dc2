use whatodo::codec::is_storable_text;
use whatodo::error::WhatodoError;
use whatodo::storage::{todos_from_text, todos_to_text};
use whatodo::todo::Todo;
use whatodo::utils::{
    decimal_string, get_depth_iterator_item, get_depth_iterator_list, parse_index,
    path_from_args, search_all_todos_content,
};

fn args(words: &[&str]) -> Vec<String> {
    words.iter().map(|w| w.to_string()).collect()
}

#[test]
fn empty_list_is_empty_text() {
    assert_eq!(todos_to_text(&Vec::new()), "");
}

#[test]
fn one_line_per_root() {
    let mut a = Todo::new(Some(true), "A".to_string());
    a.sub_todos.push(Todo::new(None, "C".to_string()));
    let list = vec![a, Todo::new(None, "B".to_string())];
    assert_eq!(todos_to_text(&list), "1|A|[0|C|]\n0|B|\n");
}

#[test]
fn reading_skips_blank_lines_and_carriage_returns() {
    let list = todos_from_text("\n0|A|\r\n\n1|B|[0|C|]").unwrap();
    assert_eq!(list.len(), 2);
    assert_eq!(list[0].contents, "A");
    assert!(list[1].complete);
    assert_eq!(list[1].sub_todos[0].contents, "C");
}

#[test]
fn reading_a_bad_line_fails() {
    assert!(matches!(
        todos_from_text("0|A|\nnot a todo\n"),
        Err(WhatodoError::MalformedTodo)
    ));
}

#[test]
fn text_round_trip() {
    let text = "1|A|[0|C|%1|D|[0|E|]]\n0|B|\n";
    assert_eq!(todos_to_text(&todos_from_text(text).unwrap()), text);
}

#[test]
fn index_parsing() {
    assert_eq!(parse_index("42"), Some(42));
    assert_eq!(parse_index("+7"), Some(7));
    assert_eq!(parse_index("007"), Some(7));
    assert_eq!(parse_index(""), None);
    assert_eq!(parse_index("+"), None);
    assert_eq!(parse_index("-1"), None);
    assert_eq!(parse_index("12a"), None);
    assert_eq!(parse_index("18446744073709551615"), Some(usize::MAX));
    assert_eq!(parse_index("18446744073709551616"), None);
}

#[test]
fn leading_numerals_make_the_path() {
    assert_eq!(
        get_depth_iterator_item(&args(&["2", "3", "x", "4"])),
        Ok(vec![1, 2])
    );
    assert_eq!(get_depth_iterator_item(&args(&["x", "1"])), Ok(vec![]));
    assert_eq!(
        get_depth_iterator_item(&args(&["1", "0"])),
        Err(WhatodoError::IndexOutOfBounds)
    );
    assert_eq!(get_depth_iterator_list(&args(&["2", "3"])), Ok(vec![1]));
    assert_eq!(get_depth_iterator_list(&args(&["done"])), Ok(vec![]));
    assert_eq!(path_from_args(&args(&["2", "3", "4"]), 2), Ok(vec![1, 2]));
}

#[test]
fn search_reaches_every_depth() {
    let mut a = Todo::new(None, "A".to_string());
    let mut c = Todo::new(None, "C".to_string());
    c.sub_todos.push(Todo::new(None, "Deep".to_string()));
    a.sub_todos.push(c);
    let list = vec![a, Todo::new(None, "B".to_string())];
    assert!(search_all_todos_content(&list, "Deep"));
    assert!(search_all_todos_content(&list, "B"));
    assert!(!search_all_todos_content(&list, "Dee"));
    assert!(!search_all_todos_content(&Vec::new(), "A"));
}

#[test]
fn decimal_writing() {
    assert_eq!(decimal_string(0), "0");
    assert_eq!(decimal_string(7), "7");
    assert_eq!(decimal_string(1234), "1234");
}

#[test]
fn error_messages() {
    assert_eq!(
        WhatodoError::IndexOutOfBounds.message(),
        "Index out of bounds, could not perform operation"
    );
    assert_eq!(
        WhatodoError::TodoAlreadyInList.message(),
        "Todo is already in list, could not add todo"
    );
    assert_eq!(
        WhatodoError::CannotLoadTodos("gone".to_string()).message(),
        "Could not load todos: gone"
    );
    assert_eq!(
        WhatodoError::CannotInitTodos("denied".to_string()).message(),
        "Could not init whatodo: denied"
    );
    assert_eq!(
        WhatodoError::CannotSaveTodos("full".to_string()).message(),
        "Could not save todos: full"
    );
    assert_eq!(WhatodoError::InvalidCommand.message(), "Invalid command");
    assert_eq!(WhatodoError::NotEnoughArguments.message(), "Not enough arguments");
    assert_eq!(
        WhatodoError::MalformedTodo.message(),
        "Stored todo list is malformed"
    );
    assert_eq!(
        WhatodoError::InvalidContents.message(),
        "Todo contents must be non-empty and free of | [ ] % and newlines"
    );
}

#[test]
fn storable_text_check() {
    assert!(is_storable_text("Buy milk"));
    assert!(!is_storable_text(""));
    assert!(!is_storable_text("a|b"));
    assert!(!is_storable_text("line\nbreak"));
}
