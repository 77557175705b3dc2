use whatodo::todo::{from_todo_string, Todo};

#[test]
fn from_todo_to_string_no_sub_todos() {
    let example = Todo::new(Some(false), "Something".to_string());
    assert_eq!("[ ] - Something", example.to_string());
}

#[test]
fn from_todo_to_string_w_sub_todos() {
    let mut example = Todo::new(Some(false), "Something".to_string());

    example
        .sub_todos
        .push(Todo::new(Some(true), "This is a test".to_string()));

    assert_eq!(
        "[ ] - Something\n- [X] - This is a test",
        example.to_string()
    );
}

#[test]
fn from_todo_to_string_w_nested_sub_todos() {
    let mut example = Todo::new(Some(false), "Something".to_string());

    example
        .sub_todos
        .push(Todo::new(Some(true), "This is a test".to_string()));

    example.sub_todos[0]
        .sub_todos
        .push(Todo::new(Some(false), "This is a nested test".to_string()));

    assert_eq!(
        "[ ] - Something\n- [X] - This is a test\n- - [ ] - This is a nested test",
        example.to_string()
    );
}

#[test]
fn from_todo_to_todos_no_sub_todos() {
    let example = Todo::new(Some(false), "Something".to_string());
    assert_eq!("0|Something|", example.to_todos());
}

#[test]
fn from_todo_to_todos_w_sub_todos() {
    let mut example = Todo::new(Some(false), "Something".to_string());

    example
        .sub_todos
        .push(Todo::new(Some(true), "This is a test".to_string()));

    example
        .sub_todos
        .push(Todo::new(Some(true), "This is a test".to_string()));

    example
        .sub_todos
        .push(Todo::new(Some(true), "This is a test".to_string()));

    assert_eq!(
        "0|Something|[1|This is a test|%1|This is a test|%1|This is a test|]",
        example.to_todos()
    );
}

#[test]
fn from_todo_string_no_sub_todos() {
    assert_eq!(
        Todo {
            complete: false,
            contents: "Empty".to_string(),
            sub_todos: Vec::new()
        },
        from_todo_string("0|Empty|".to_string()).unwrap()
    );
}

#[test]
fn from_todo_string_w_sub_todos() {
    assert_eq!(
        Todo {
            complete: false,
            contents: "One sub".to_string(),
            sub_todos: vec![Todo {
                complete: true,
                contents: "This is a sub_todo".to_string(),
                sub_todos: Vec::new()
            }]
        },
        from_todo_string("0|One sub|[1|This is a sub_todo|]".to_string()).unwrap()
    );
}

#[test]
fn from_todo_string_w_doubly_nested_sub_todos() {
    assert_eq!(
        Todo {
            complete: false,
            contents: "One sub".to_string(),
            sub_todos: vec![Todo {
                complete: true,
                contents: "This is a sub_todo".to_string(),
                sub_todos: Vec::new()
            }]
        },
        from_todo_string(
            "0|One sub|[1|This is a sub_todo|[1|This is an even further nested todo|]]"
                .to_string()
        )
        .unwrap()
    );
}

#[test]
fn from_todo_string_w_multiple_sub_todos() {
    assert_eq!(
        Todo {
            complete: false,
            contents: "One sub".to_string(),
            sub_todos: vec![Todo {
                complete: true,
                contents: "This is a sub_todo".to_string(),
                sub_todos: Vec::new()
            }]
        },
        from_todo_string(
            "0|One sub|[1|This is a sub_todo|%1|This is an even further nested todo|]"
                .to_string()
        )
        .unwrap()
    );
}
