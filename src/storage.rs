//! The stored text of a whole list: one root todo per line.

use crate::codec::{char_vec, encode, from_todo_string, parse_line};
use crate::error::WhatodoError;
use crate::todo::{lemma_list_model, lemma_list_model_push, list_model, todo_model, Todo, TodoModel};
use vstd::prelude::*;

verus! {

/// The stored text of a list: each root todo on a line of its own, each
/// line ended by a newline. The empty list is the empty text.
pub open spec fn encode_all(list: Seq<TodoModel>) -> Seq<char>
    decreases list.len(),
{
    if list.len() == 0 {
        Seq::empty()
    } else {
        encode_all(list.drop_last()) + encode(list.last()) + seq!['\n']
    }
}

/// How many characters precede the first newline (all of them when there is none).
pub open spec fn line_len(s: Seq<char>) -> nat
    decreases s.len(),
{
    if s.len() == 0 || s[0] == '\n' {
        0
    } else {
        1 + line_len(s.drop_first())
    }
}

/// The first line of a text, without its line ending (`\n`, or `\r\n`).
pub open spec fn first_line(s: Seq<char>) -> Seq<char> {
    let k = line_len(s);
    if k < s.len() && k > 0 && s[k - 1] == '\r' {
        s.take(k - 1)
    } else {
        s.take(k as int)
    }
}

/// What follows the first line and its newline.
pub open spec fn after_line(s: Seq<char>) -> Seq<char> {
    let k = line_len(s);
    if k < s.len() {
        s.skip(k as int + 1)
    } else {
        Seq::empty()
    }
}

/// The non-empty lines of a text, in order, without their line endings.
pub open spec fn text_lines(s: Seq<char>) -> Seq<Seq<char>>
    decreases s.len(),
{
    if s.len() == 0 {
        Seq::empty()
    } else if first_line(s).len() == 0 {
        text_lines(after_line(s))
    } else {
        seq![first_line(s)] + text_lines(after_line(s))
    }
}

/// Every line is a stored todo.
pub open spec fn all_parse(lines: Seq<Seq<char>>) -> bool {
    forall|i: int| 0 <= i < lines.len() ==> (#[trigger] parse_line(lines[i])) is Some
}

/// The todos that the lines stand for, one for one.
pub open spec fn parsed_lines(lines: Seq<Seq<char>>) -> Seq<TodoModel> {
    lines.map_values(|l: Seq<char>| parse_line(l)->0)
}

/// A line of `k` characters free of newlines, ended by one or by the end of the text.
pub(crate) proof fn lemma_line_len(s: Seq<char>, k: int)
    requires
        0 <= k <= s.len(),
        forall|i: int| 0 <= i < k ==> s[i] != '\n',
        k == s.len() || s[k] == '\n',
    ensures
        line_len(s) == k,
    decreases k,
{
    if k > 0 {
        lemma_line_len(s.drop_first(), k - 1);
    }
}

/// The text that stores a list (see `encode_all`).
pub fn todos_to_text(todos_list: &Vec<Todo>) -> (r: String)
    ensures
        r@ == encode_all(list_model(todos_list@)),
{
    let ghost lm = list_model(todos_list@);
    proof {
        lemma_list_model(todos_list@);
        reveal_strlit("\n");
        assert(lm.take(0) =~= Seq::<TodoModel>::empty());
    }
    let mut out = String::new();
    let mut i: usize = 0;
    while i < todos_list.len()
        invariant
            i <= todos_list@.len(),
            lm == list_model(todos_list@),
            lm.len() == todos_list@.len(),
            forall|k: int| 0 <= k < lm.len() ==> #[trigger] lm[k] == todo_model(todos_list@[k]),
            out@ == encode_all(lm.take(i as int)),
        decreases todos_list@.len() - i,
    {
        let line = todos_list[i].to_todos();
        out.append(line.as_str());
        out.append("\n");
        proof {
            reveal_strlit("\n");
            assert(lm.take(i + 1).drop_last() =~= lm.take(i as int));
            assert(out@ =~= encode_all(lm.take(i + 1)));
        }
        i = i + 1;
    }
    assert(lm.take(i as int) =~= lm);
    out
}

/// Reads a stored list back: one root todo per non-empty line, in order.
/// Fails when a line is not a stored todo.
pub fn todos_from_text(text: &str) -> (r: Result<Vec<Todo>, WhatodoError>)
    ensures
        all_parse(text_lines(text@)) ==> (r matches Ok(v) && list_model(v@) == parsed_lines(
            text_lines(text@),
        )),
        !all_parse(text_lines(text@)) ==> r == Err::<Vec<Todo>, WhatodoError>(
            WhatodoError::MalformedTodo,
        ),
{
    let chars = char_vec(text);
    let n = chars.len();
    let ghost s = text@;
    let ghost mut done: Seq<Seq<char>> = Seq::empty();
    let mut todos: Vec<Todo> = Vec::new();
    let mut i: usize = 0;
    proof {
        assert(s.skip(0) =~= s);
        assert(done + text_lines(s.skip(0)) =~= text_lines(s));
        assert(list_model(todos@) =~= parsed_lines(done));
    }
    while i < n
        invariant
            i <= n,
            n == s.len(),
            chars@ == s,
            text@ == s,
            text_lines(s) == done + text_lines(s.skip(i as int)),
            all_parse(done),
            list_model(todos@) == parsed_lines(done),
        decreases n - i,
    {
        let ghost t = s.skip(i as int);
        let mut j = i;
        while j < n && chars[j] != '\n'
            invariant
                i <= j <= n,
                n == s.len(),
                chars@ == s,
                forall|k: int| i <= k < j ==> s[k] != '\n',
            decreases n - j,
        {
            j = j + 1;
        }
        proof {
            lemma_line_len(t, j - i);
        }
        let end = if j < n && j > i && chars[j - 1] == '\r' {
            j - 1
        } else {
            j
        };
        let next = if j < n {
            j + 1
        } else {
            n
        };
        proof {
            assert(first_line(t) =~= s.subrange(i as int, end as int));
            assert(after_line(t) =~= s.skip(next as int));
        }
        if end > i {
            let line = String::from_str(text.substring_char(i, end));
            let ghost l = line@;
            proof {
                assert(text_lines(s) =~= (done + seq![l]) + text_lines(s.skip(next as int)));
                assert(text_lines(s)[done.len() as int] == l);
            }
            match from_todo_string(line) {
                Ok(todo) => {
                    proof {
                        lemma_list_model_push(todos@, todo);
                        assert(parsed_lines(done + seq![l]) =~= parsed_lines(done).push(todo@));
                        done = done + seq![l];
                    }
                    todos.push(todo);
                },
                Err(_) => {
                    assert(!all_parse(text_lines(s))) by {
                        assert(parse_line(text_lines(s)[done.len() as int]) is None);
                    }
                    return Err(WhatodoError::MalformedTodo);
                },
            }
        } else {
            proof {
                assert(text_lines(s) =~= done + text_lines(s.skip(next as int)));
            }
        }
        i = next;
    }
    proof {
        assert(s.skip(n as int) =~= Seq::<char>::empty());
        assert(done =~= text_lines(s));
    }
    Ok(todos)
}

} // verus!
