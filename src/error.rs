//! The errors of the library.

use vstd::prelude::*;

verus! {

/// What can go wrong in a command.
#[derive(Debug, PartialEq, Eq)]
pub enum WhatodoError {
    /// A path element is past the end of the list it indexes.
    IndexOutOfBounds,
    /// The storage could not be read; holds the reason.
    CannotLoadTodos(String),
    /// The storage could not be created; holds the reason.
    CannotInitTodos(String),
    /// The target list already holds a todo with the same contents.
    TodoAlreadyInList,
    /// The storage could not be written; holds the reason.
    CannotSaveTodos(String),
    /// The command or its keyword is not known.
    InvalidCommand,
    /// The command lacks an argument it needs.
    NotEnoughArguments,
    /// A stored line does not follow the todo grammar.
    MalformedTodo,
    /// New contents are empty or hold a character that storage reserves.
    InvalidContents,
}

/// The text shown for an error.
pub open spec fn error_message(e: WhatodoError) -> Seq<char> {
    match e {
        WhatodoError::IndexOutOfBounds => "Index out of bounds, could not perform operation"@,
        WhatodoError::CannotLoadTodos(r) => "Could not load todos: "@ + r@,
        WhatodoError::CannotInitTodos(r) => "Could not init whatodo: "@ + r@,
        WhatodoError::TodoAlreadyInList => "Todo is already in list, could not add todo"@,
        WhatodoError::CannotSaveTodos(r) => "Could not save todos: "@ + r@,
        WhatodoError::InvalidCommand => "Invalid command"@,
        WhatodoError::NotEnoughArguments => "Not enough arguments"@,
        WhatodoError::MalformedTodo => "Stored todo list is malformed"@,
        WhatodoError::InvalidContents => "Todo contents must be non-empty and free of | [ ] % and newlines"@,
    }
}

impl WhatodoError {
    /// The text shown for this error.
    pub fn message(&self) -> (r: String)
        ensures
            r@ == error_message(*self),
    {
        match self {
            WhatodoError::IndexOutOfBounds => String::from_str(
                "Index out of bounds, could not perform operation",
            ),
            WhatodoError::CannotLoadTodos(r) => String::from_str("Could not load todos: ").concat(
                r.as_str(),
            ),
            WhatodoError::CannotInitTodos(r) => String::from_str(
                "Could not init whatodo: ",
            ).concat(r.as_str()),
            WhatodoError::TodoAlreadyInList => String::from_str(
                "Todo is already in list, could not add todo",
            ),
            WhatodoError::CannotSaveTodos(r) => String::from_str("Could not save todos: ").concat(
                r.as_str(),
            ),
            WhatodoError::InvalidCommand => String::from_str("Invalid command"),
            WhatodoError::NotEnoughArguments => String::from_str("Not enough arguments"),
            WhatodoError::MalformedTodo => String::from_str("Stored todo list is malformed"),
            WhatodoError::InvalidContents => String::from_str(
                "Todo contents must be non-empty and free of | [ ] % and newlines",
            ),
        }
    }
}

} // verus!
