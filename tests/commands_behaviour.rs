use whatodo::commands::{add_at_path, add_to_list, checkout_list, complete_todo, remove_from_list};
use whatodo::error::WhatodoError;
use whatodo::storage::{todos_from_text, todos_to_text};
use whatodo::todo::Todo;
use whatodo::utils::get_mut_from_num_depth;

fn args(words: &[&str]) -> Vec<String> {
    words.iter().map(|w| w.to_string()).collect()
}

fn contents(list: &[Todo]) -> Vec<String> {
    list.iter().map(|t| t.contents.clone()).collect()
}

/// Root list `[A, B]` where `A` has the one sub-todo `C`.
fn a_b_c() -> Vec<Todo> {
    let mut a = Todo::new(None, "A".to_string());
    a.sub_todos.push(Todo::new(None, "C".to_string()));
    vec![a, Todo::new(None, "B".to_string())]
}

#[test]
fn path_resolution() {
    let mut list = a_b_c();
    let c = get_mut_from_num_depth(&mut list, &vec![0, 0]).unwrap();
    assert_eq!(c.contents, "C");
    let b = get_mut_from_num_depth(&mut list, &vec![1]).unwrap();
    assert_eq!(b.contents, "B");
    assert!(get_mut_from_num_depth(&mut list, &vec![2]).is_none());
    assert!(get_mut_from_num_depth(&mut list, &vec![]).is_none());
    assert_eq!(
        complete_todo(&mut list, &args(&["3"])),
        Err(WhatodoError::IndexOutOfBounds)
    );
    assert_eq!(complete_todo(&mut list, &args(&["1", "1"])), Ok(()));
    assert!(list[0].sub_todos[0].complete);
    assert!(!list[0].complete);
}

#[test]
fn change_through_found_todo_stays() {
    let mut list = a_b_c();
    get_mut_from_num_depth(&mut list, &vec![0, 0]).unwrap().contents = "D".to_string();
    assert_eq!(list[0].sub_todos[0].contents, "D");
}

#[test]
fn add_rejects_duplicate_sibling() {
    let mut list = Vec::new();
    assert_eq!(add_to_list(&mut list, &args(&["X"])), Ok(()));
    let before = todos_to_text(&list);
    assert_eq!(
        add_to_list(&mut list, &args(&["X"])),
        Err(WhatodoError::TodoAlreadyInList)
    );
    assert_eq!(todos_to_text(&list), before);
}

#[test]
fn add_allows_same_contents_in_other_list() {
    let mut list = a_b_c();
    assert_eq!(add_to_list(&mut list, &args(&["2", "C"])), Ok(()));
    assert_eq!(contents(&list[1].sub_todos), vec!["C".to_string()]);
    assert_eq!(
        add_to_list(&mut list, &args(&["1", "C"])),
        Err(WhatodoError::TodoAlreadyInList)
    );
}

#[test]
fn add_appends_nested() {
    let mut list = a_b_c();
    assert_eq!(add_to_list(&mut list, &args(&["1", "1", "E"])), Ok(()));
    assert_eq!(contents(&list[0].sub_todos[0].sub_todos), vec!["E".to_string()]);
    assert!(!list[0].sub_todos[0].sub_todos[0].complete);
}

#[test]
fn add_errors() {
    let mut list = a_b_c();
    assert_eq!(
        add_to_list(&mut list, &args(&[])),
        Err(WhatodoError::NotEnoughArguments)
    );
    assert_eq!(
        add_to_list(&mut list, &args(&["5", "E"])),
        Err(WhatodoError::IndexOutOfBounds)
    );
    assert_eq!(
        add_to_list(&mut list, &args(&["0", "E"])),
        Err(WhatodoError::IndexOutOfBounds)
    );
    assert_eq!(
        add_at_path(&mut list, &vec![0, 3], "E".to_string()),
        Err(WhatodoError::IndexOutOfBounds)
    );
    assert_eq!(list.len(), 2);
}

#[test]
fn add_rejects_contents_storage_cannot_keep() {
    let mut list = a_b_c();
    for bad in ["", "a|b", "[x", "y]", "50%", "two\nlines"] {
        assert_eq!(
            add_to_list(&mut list, &args(&["1", bad])),
            Err(WhatodoError::InvalidContents)
        );
    }
    assert_eq!(list[0].sub_todos.len(), 1);
    assert_eq!(add_to_list(&mut list, &args(&["1", "fine: 100 (ok)"])), Ok(()));
    assert_eq!(list[0].sub_todos.len(), 2);
}

#[test]
fn remove_done_keeps_incomplete() {
    let mut list = vec![
        Todo::new(Some(true), "A".to_string()),
        Todo::new(Some(false), "B".to_string()),
    ];
    assert_eq!(remove_from_list(&mut list, &args(&["done"])), Ok(()));
    assert_eq!(list.len(), 1);
    assert_eq!(list[0].contents, "B");
    assert!(!list[0].complete);
}

#[test]
fn remove_todo_keeps_complete() {
    let mut list = vec![
        Todo::new(Some(true), "A".to_string()),
        Todo::new(Some(false), "B".to_string()),
        Todo::new(Some(true), "C".to_string()),
    ];
    assert_eq!(remove_from_list(&mut list, &args(&["todo"])), Ok(()));
    assert_eq!(contents(&list), vec!["A".to_string(), "C".to_string()]);
    let mut again = vec![Todo::new(Some(false), "B".to_string())];
    assert_eq!(remove_from_list(&mut again, &args(&["todos"])), Ok(()));
    assert!(again.is_empty());
}

#[test]
fn remove_all_clears() {
    let mut list = a_b_c();
    assert_eq!(remove_from_list(&mut list, &args(&["all"])), Ok(()));
    assert!(list.is_empty());
}

#[test]
fn remove_by_path() {
    let mut list = a_b_c();
    assert_eq!(remove_from_list(&mut list, &args(&["1", "1"])), Ok(()));
    assert!(list[0].sub_todos.is_empty());
    assert_eq!(remove_from_list(&mut list, &args(&["1"])), Ok(()));
    assert_eq!(contents(&list), vec!["B".to_string()]);
}

#[test]
fn remove_errors() {
    let mut list = a_b_c();
    assert_eq!(
        remove_from_list(&mut list, &args(&[])),
        Err(WhatodoError::NotEnoughArguments)
    );
    assert_eq!(
        remove_from_list(&mut list, &args(&["3"])),
        Err(WhatodoError::IndexOutOfBounds)
    );
    assert_eq!(
        remove_from_list(&mut list, &args(&["1", "2"])),
        Err(WhatodoError::IndexOutOfBounds)
    );
    assert_eq!(
        remove_from_list(&mut list, &args(&["nothing"])),
        Err(WhatodoError::NotEnoughArguments)
    );
    assert_eq!(list.len(), 2);
    assert_eq!(list[0].sub_todos.len(), 1);
}

#[test]
fn complete_needs_a_path() {
    let mut list = a_b_c();
    assert_eq!(
        complete_todo(&mut list, &args(&[])),
        Err(WhatodoError::NotEnoughArguments)
    );
    assert_eq!(
        complete_todo(&mut list, &args(&["0"])),
        Err(WhatodoError::IndexOutOfBounds)
    );
}

#[test]
fn complete_twice_stays_complete() {
    let mut list = a_b_c();
    assert_eq!(complete_todo(&mut list, &args(&["2"])), Ok(()));
    assert_eq!(complete_todo(&mut list, &args(&["2"])), Ok(()));
    assert!(list[1].complete);
}

#[test]
fn checkout_views() {
    let empty: Vec<Todo> = Vec::new();
    assert_eq!(
        checkout_list(&empty, "all"),
        Ok(vec!["There are no todos!".to_string()])
    );
    let mut list = a_b_c();
    list[1].complete = true;
    list.push(Todo::new(None, "D".to_string()));
    assert_eq!(
        checkout_list(&list, "all"),
        Ok(vec![
            "1. [ ] - A\n- [ ] - C".to_string(),
            "2. [X] - B".to_string(),
            "3. [ ] - D".to_string(),
        ])
    );
    assert_eq!(checkout_list(&list, "done"), Ok(vec!["[X] - B".to_string()]));
    list[0].complete = true;
    assert_eq!(
        checkout_list(&list, "done"),
        Ok(vec!["[X] - A".to_string(), "[X] - B".to_string()])
    );
    list[0].complete = false;
    assert_eq!(
        checkout_list(&list, "todo"),
        Ok(vec!["1. [ ] - A\n- [ ] - C".to_string(), "2. [ ] - D".to_string()])
    );
    assert_eq!(
        checkout_list(&list, "later"),
        Err(WhatodoError::InvalidCommand)
    );
}

#[test]
fn checkout_numbers_past_nine() {
    let mut list = Vec::new();
    for i in 0..11 {
        list.push(Todo::new(None, format!("T{}", i)));
    }
    let lines = checkout_list(&list, "all").unwrap();
    assert_eq!(lines[10], "11. [ ] - T10");
}

#[test]
fn buy_milk_session() {
    let mut list = todos_from_text("").unwrap();
    assert!(list.is_empty());
    assert_eq!(add_to_list(&mut list, &args(&["Buy milk"])), Ok(()));
    let stored = todos_to_text(&list);
    assert_eq!(stored, "0|Buy milk|\n");
    let mut list = todos_from_text(&stored).unwrap();
    assert_eq!(complete_todo(&mut list, &args(&["1"])), Ok(()));
    let stored = todos_to_text(&list);
    assert_eq!(stored, "1|Buy milk|\n");
    let list = todos_from_text(&stored).unwrap();
    assert_eq!(
        checkout_list(&list, "all"),
        Ok(vec!["1. [X] - Buy milk".to_string()])
    );
}
