//! The commands on a todo list: adding, completing and removing by
//! depth-path, removing by keyword, and listing.

use crate::codec::{is_storable_text, storable_text};
use crate::error::WhatodoError;
use crate::todo::{
    lemma_list_model, lemma_list_model_push, lemma_list_model_remove, lemma_list_model_update,
    list_model, header, render, todo_model, Todo, TodoModel,
};
use crate::utils::{
    decimal, decimal_string, get_depth_iterator_item, item_path, list_at, node_at, path_from_args,
    replace_list_at, replace_node_at, texts,
};
use vstd::prelude::*;

verus! {

/// A new todo: not complete, with the given contents and no sub-todos.
pub open spec fn leaf(contents: Seq<char>) -> TodoModel {
    TodoModel { complete: false, contents, sub_todos: Seq::empty() }
}

/// Some todo of `l` itself (its sub-todos aside) has exactly these contents.
pub open spec fn has_sibling(l: Seq<TodoModel>, contents: Seq<char>) -> bool {
    exists|i: int| #![trigger l[i]] 0 <= i < l.len() && l[i].contents == contents
}

/// `t` marked complete.
pub open spec fn completed(t: TodoModel) -> TodoModel {
    TodoModel { complete: true, contents: t.contents, sub_todos: t.sub_todos }
}

/// A change to one list of the tree.
enum ListEdit {
    Add(String),
    Complete(usize),
    Remove(usize),
}

/// What an edit makes of the list it applies to.
spec fn edit_outcome(l: Seq<TodoModel>, e: ListEdit) -> Result<Seq<TodoModel>, WhatodoError> {
    match e {
        ListEdit::Add(c) => if has_sibling(l, c@) {
            Err(WhatodoError::TodoAlreadyInList)
        } else {
            Ok(l.push(leaf(c@)))
        },
        ListEdit::Complete(k) => if k < l.len() {
            Ok(l.update(k as int, completed(l[k as int])))
        } else {
            Err(WhatodoError::IndexOutOfBounds)
        },
        ListEdit::Remove(k) => if k < l.len() {
            Ok(l.remove(k as int))
        } else {
            Err(WhatodoError::IndexOutOfBounds)
        },
    }
}

/// `after` and `r` are what `outcome` says: the new models and success, or
/// the error with the models unchanged.
pub open spec fn follows(before: Seq<TodoModel>, after: Seq<TodoModel>, r: Result<(), WhatodoError>, outcome: Result<Seq<TodoModel>, WhatodoError>) -> bool {
    match outcome {
        Ok(l2) => r is Ok && after == l2,
        Err(e) => r == Err::<(), WhatodoError>(e) && after == before,
    }
}

/// Applies `edit` to `list` itself (see `edit_outcome`).
fn apply_edit(list: &mut Vec<Todo>, edit: ListEdit) -> (r: Result<(), WhatodoError>)
    ensures
        follows(
            list_model(old(list)@),
            list_model(final(list)@),
            r,
            edit_outcome(list_model(old(list)@), edit),
        ),
{
    let ghost lm = list_model(list@);
    proof {
        lemma_list_model(list@);
    }
    match edit {
        ListEdit::Add(contents) => {
            let mut i: usize = 0;
            while i < list.len()
                invariant
                    i <= list@.len(),
                    lm == list_model(list@),
                    lm == list_model(old(list)@),
                    edit == ListEdit::Add(contents),
                    lm.len() == list@.len(),
                    forall|k: int| 0 <= k < lm.len() ==> #[trigger] lm[k] == todo_model(list@[k]),
                    forall|j: int| 0 <= j < i ==> #[trigger] lm[j].contents != contents@,
                decreases list@.len() - i,
            {
                if list[i].contents == contents {
                    assert(lm[i as int].contents == contents@);
                    return Err(WhatodoError::TodoAlreadyInList);
                }
                i = i + 1;
            }
            let ghost c = contents@;
            let t = Todo::new(None, contents);
            proof {
                lemma_list_model_push(list@, t);
                assert(list_model(t.sub_todos@) =~= Seq::<TodoModel>::empty());
                assert(todo_model(t) == leaf(c));
            }
            list.push(t);
            Ok(())
        },
        ListEdit::Complete(k) => {
            if k >= list.len() {
                return Err(WhatodoError::IndexOutOfBounds);
            }
            let ghost before = list@;
            list[k].complete = true;
            proof {
                lemma_list_model_update(before, k as int, list@[k as int]);
                assert(list@ =~= before.update(k as int, list@[k as int]));
            }
            Ok(())
        },
        ListEdit::Remove(k) => {
            if k >= list.len() {
                return Err(WhatodoError::IndexOutOfBounds);
            }
            proof {
                lemma_list_model_remove(list@, k as int);
            }
            list.remove(k);
            Ok(())
        },
    }
}

/// Applies `edit` to the list that `path[depth..end]` leads to from `list`.
fn edit_list_at(
    list: &mut Vec<Todo>,
    path: &Vec<usize>,
    depth: usize,
    end: usize,
    edit: ListEdit,
) -> (r: Result<(), WhatodoError>)
    requires
        depth <= end <= path@.len(),
    ensures
        match list_at(list_model(old(list)@), path@.subrange(depth as int, end as int)) {
            None => r == Err::<(), WhatodoError>(WhatodoError::IndexOutOfBounds) && list_model(
                final(list)@,
            ) == list_model(old(list)@),
            Some(l) => follows(
                list_model(old(list)@),
                list_model(final(list)@),
                r,
                match edit_outcome(l, edit) {
                    Ok(l2) => Ok(replace_list_at(list_model(old(list)@), path@.subrange(depth as int, end as int), l2)),
                    Err(e) => Err(e),
                },
            ),
        },
    decreases path@.len() - depth,
{
    let ghost lm = list_model(list@);
    let ghost rest = path@.subrange(depth as int, end as int);
    proof {
        lemma_list_model(list@);
    }
    if depth == end {
        proof {
            assert(rest =~= Seq::<usize>::empty());
        }
        return apply_edit(list, edit);
    }
    let i = path[depth];
    proof {
        assert(rest[0] == i);
        assert(rest.drop_first() =~= path@.subrange(depth + 1, end as int));
    }
    if i >= list.len() {
        return Err(WhatodoError::IndexOutOfBounds);
    }
    let ghost before = list@;
    let ghost t = list@[i as int];
    let r = edit_list_at(&mut list[i as usize].sub_todos, path, depth + 1, end, edit);
    proof {
        let t2 = list@[i as int];
        assert(list@ =~= before.update(i as int, t2));
        lemma_list_model_update(before, i as int, t2);
        assert(t2.complete == t.complete);
        assert(t2.contents == t.contents);
        if r is Err {
            assert(todo_model(t2) =~= todo_model(t));
            assert(list_model(list@) =~= lm);
        }
    }
    r
}

/// `list` without the todo that a non-empty `path` names.
pub open spec fn remove_node_at(list: Seq<TodoModel>, path: Seq<usize>) -> Seq<TodoModel> {
    let l = list_at(list, path.drop_last())->0;
    replace_list_at(list, path.drop_last(), l.remove(path.last() as int))
}

/// What adding a todo with `contents` to the list that `path` leads to makes
/// of the tree: the new tree, or the error when the contents could not be
/// stored exactly, when the path leaves the tree, or when a todo of that very
/// list already has these contents.
pub open spec fn addition(list: Seq<TodoModel>, path: Seq<usize>, contents: Seq<char>) -> Result<
    Seq<TodoModel>,
    WhatodoError,
> {
    if !storable_text(contents) {
        Err(WhatodoError::InvalidContents)
    } else {
        match list_at(list, path) {
            None => Err(WhatodoError::IndexOutOfBounds),
            Some(l) => if has_sibling(l, contents) {
                Err(WhatodoError::TodoAlreadyInList)
            } else {
                Ok(replace_list_at(list, path, l.push(leaf(contents))))
            },
        }
    }
}

/// What marking the todo that `path` names as complete makes of the tree.
pub open spec fn completion(list: Seq<TodoModel>, path: Seq<usize>) -> Result<
    Seq<TodoModel>,
    WhatodoError,
> {
    if path.len() == 0 {
        Err(WhatodoError::NotEnoughArguments)
    } else {
        match node_at(list, path) {
            None => Err(WhatodoError::IndexOutOfBounds),
            Some(t) => Ok(replace_node_at(list, path, completed(t))),
        }
    }
}

/// What removing the todo that `path` names makes of the tree.
pub open spec fn removal(list: Seq<TodoModel>, path: Seq<usize>) -> Result<
    Seq<TodoModel>,
    WhatodoError,
> {
    if path.len() == 0 {
        Err(WhatodoError::NotEnoughArguments)
    } else {
        match node_at(list, path) {
            None => Err(WhatodoError::IndexOutOfBounds),
            Some(t) => Ok(remove_node_at(list, path)),
        }
    }
}

/// Adds a new todo with `contents` at the end of the list that `path` leads
/// to (the root list for the empty path); see `addition`.
pub fn add_at_path(todos_list: &mut Vec<Todo>, path: &Vec<usize>, contents: String) -> (r: Result<
    (),
    WhatodoError,
>)
    ensures
        follows(
            list_model(old(todos_list)@),
            list_model(final(todos_list)@),
            r,
            addition(list_model(old(todos_list)@), path@, contents@),
        ),
{
    if !is_storable_text(contents.as_str()) {
        return Err(WhatodoError::InvalidContents);
    }
    assert(path@.subrange(0, path@.len() as int) =~= path@);
    edit_list_at(todos_list, path, 0, path.len(), ListEdit::Add(contents))
}

/// Marks the todo that `path` names as complete, whether or not it was;
/// see `completion`.
pub fn complete_at_path(todos_list: &mut Vec<Todo>, path: &Vec<usize>) -> (r: Result<
    (),
    WhatodoError,
>)
    ensures
        follows(
            list_model(old(todos_list)@),
            list_model(final(todos_list)@),
            r,
            completion(list_model(old(todos_list)@), path@),
        ),
{
    let n = path.len();
    if n == 0 {
        return Err(WhatodoError::NotEnoughArguments);
    }
    assert(path@.subrange(0, n - 1) =~= path@.drop_last());
    edit_list_at(todos_list, path, 0, n - 1, ListEdit::Complete(path[n - 1]))
}

/// Removes the todo that `path` names, with its sub-todos; see `removal`.
pub fn remove_at_path(todos_list: &mut Vec<Todo>, path: &Vec<usize>) -> (r: Result<
    (),
    WhatodoError,
>)
    ensures
        follows(
            list_model(old(todos_list)@),
            list_model(final(todos_list)@),
            r,
            removal(list_model(old(todos_list)@), path@),
        ),
{
    let n = path.len();
    if n == 0 {
        return Err(WhatodoError::NotEnoughArguments);
    }
    assert(path@.subrange(0, n - 1) =~= path@.drop_last());
    edit_list_at(todos_list, path, 0, n - 1, ListEdit::Remove(path[n - 1]))
}

/// Whether a todo's flag is `complete`.
pub open spec fn flag_is(complete: bool) -> spec_fn(TodoModel) -> bool {
    |t: TodoModel| t.complete == complete
}

/// The todos of `l` whose flag is `complete`, in order.
pub open spec fn with_flag(l: Seq<TodoModel>, complete: bool) -> Seq<TodoModel> {
    l.filter(flag_is(complete))
}

/// Keeps the root todos whose flag is `complete`, in order, and drops the rest.
fn retain_by_flag(todos_list: &mut Vec<Todo>, complete: bool)
    ensures
        list_model(final(todos_list)@) == with_flag(list_model(old(todos_list)@), complete),
{
    let ghost om = list_model(todos_list@);
    let ghost pred = flag_is(complete);
    let ghost mut j: int = 0;
    let mut i: usize = 0;
    proof {
        lemma_list_model(todos_list@);
        assert(om.take(0) =~= Seq::<TodoModel>::empty());
        assert(om.skip(0) =~= om);
        assert(om.take(0).filter(pred) + om.skip(0) =~= om);
    }
    while i < todos_list.len()
        invariant
            0 <= j <= om.len(),
            pred == flag_is(complete),
            list_model(todos_list@) == om.take(j).filter(pred) + om.skip(j),
            i == om.take(j).filter(pred).len(),
        decreases todos_list@.len() - i,
    {
        let ghost cur = todos_list@;
        proof {
            lemma_list_model(cur);
            assert(j < om.len()) by {
                if j == om.len() {
                    assert(om.skip(j).len() == 0);
                }
            }
            assert(list_model(cur)[i as int] == om[j]);
            assert(om.take(j + 1) =~= om.take(j).push(om[j]));
            om.take(j).lemma_filter_push(om[j], pred);
        }
        if todos_list[i].complete == complete {
            proof {
                assert(om.take(j + 1).filter(pred) == om.take(j).filter(pred).push(om[j]));
                assert(om.take(j).filter(pred) + om.skip(j) =~= om.take(j + 1).filter(pred) + om.skip(
                    j + 1,
                ));
            }
            i = i + 1;
        } else {
            proof {
                lemma_list_model_remove(cur, i as int);
                assert(om.take(j + 1).filter(pred) == om.take(j).filter(pred));
                assert((om.take(j).filter(pred) + om.skip(j)).remove(i as int) =~= om.take(
                    j + 1,
                ).filter(pred) + om.skip(j + 1));
            }
            todos_list.remove(i);
        }
        proof {
            j = j + 1;
        }
    }
    proof {
        lemma_list_model(todos_list@);
        assert(om.skip(j).len() == 0);
        assert(j == om.len());
        assert(om.take(j) =~= om);
        assert(list_model(todos_list@) =~= with_flag(om, complete));
    }
}

/// Adds a todo: the last argument is its contents, and the leading numerals
/// before it are the one-based path of the list it joins (none for the
/// root list).
pub fn add_to_list(todos_list: &mut Vec<Todo>, args: &Vec<String>) -> (r: Result<(), WhatodoError>)
    ensures
        args@.len() == 0 ==> r == Err::<(), WhatodoError>(WhatodoError::NotEnoughArguments)
            && list_model(final(todos_list)@) == list_model(old(todos_list)@),
        args@.len() > 0 ==> match item_path(texts(args@).drop_last()) {
            None => r == Err::<(), WhatodoError>(WhatodoError::IndexOutOfBounds) && list_model(
                final(todos_list)@,
            ) == list_model(old(todos_list)@),
            Some(p) => follows(
                list_model(old(todos_list)@),
                list_model(final(todos_list)@),
                r,
                addition(list_model(old(todos_list)@), p, args@.last()@),
            ),
        },
{
    let n = args.len();
    if n == 0 {
        return Err(WhatodoError::NotEnoughArguments);
    }
    assert(texts(args@).take(n - 1) =~= texts(args@).drop_last());
    let path = path_from_args(args, n - 1)?;
    let contents = args[n - 1].clone();
    add_at_path(todos_list, &path, contents)
}

/// Marks complete the todo that the leading numerals of the arguments name.
pub fn complete_todo(todos_list: &mut Vec<Todo>, args: &Vec<String>) -> (r: Result<
    (),
    WhatodoError,
>)
    ensures
        match item_path(texts(args@)) {
            None => r == Err::<(), WhatodoError>(WhatodoError::IndexOutOfBounds) && list_model(
                final(todos_list)@,
            ) == list_model(old(todos_list)@),
            Some(p) => follows(
                list_model(old(todos_list)@),
                list_model(final(todos_list)@),
                r,
                completion(list_model(old(todos_list)@), p),
            ),
        },
{
    let path = get_depth_iterator_item(args)?;
    complete_at_path(todos_list, &path)
}

/// Removes todos. With `all` as first argument every root todo goes; with
/// `done`, the complete root todos; with `todo` or `todos`, the incomplete
/// ones. Otherwise the leading numerals name the one todo to remove.
pub fn remove_from_list(todos_list: &mut Vec<Todo>, args: &Vec<String>) -> (r: Result<
    (),
    WhatodoError,
>)
    ensures
        args@.len() == 0 ==> r == Err::<(), WhatodoError>(WhatodoError::NotEnoughArguments)
            && list_model(final(todos_list)@) == list_model(old(todos_list)@),
        args@.len() > 0 && args@[0]@ == "all"@ ==> r is Ok && list_model(final(todos_list)@)
            == Seq::<TodoModel>::empty(),
        args@.len() > 0 && args@[0]@ == "done"@ ==> r is Ok && list_model(final(todos_list)@)
            == with_flag(list_model(old(todos_list)@), false),
        args@.len() > 0 && (args@[0]@ == "todo"@ || args@[0]@ == "todos"@) ==> r is Ok
            && list_model(final(todos_list)@) == with_flag(list_model(old(todos_list)@), true),
        args@.len() > 0 && args@[0]@ != "all"@ && args@[0]@ != "done"@ && args@[0]@ != "todo"@
            && args@[0]@ != "todos"@ ==> match item_path(texts(args@)) {
            None => r == Err::<(), WhatodoError>(WhatodoError::IndexOutOfBounds) && list_model(
                final(todos_list)@,
            ) == list_model(old(todos_list)@),
            Some(p) => follows(
                list_model(old(todos_list)@),
                list_model(final(todos_list)@),
                r,
                removal(list_model(old(todos_list)@), p),
            ),
        },
{
    proof {
        reveal_strlit("all");
        reveal_strlit("done");
        reveal_strlit("todo");
        reveal_strlit("todos");
    }
    if args.len() == 0 {
        return Err(WhatodoError::NotEnoughArguments);
    }
    let first = &args[0];
    if *first == String::from_str("all") {
        todos_list.clear();
        proof {
            assert(list_model(todos_list@) =~= Seq::<TodoModel>::empty());
        }
        Ok(())
    } else if *first == String::from_str("done") {
        retain_by_flag(todos_list, false);
        Ok(())
    } else if *first == String::from_str("todo") || *first == String::from_str("todos") {
        retain_by_flag(todos_list, true);
        Ok(())
    } else {
        let path = get_depth_iterator_item(args)?;
        remove_at_path(todos_list, &path)
    }
}

/// Todos as listed with numbers: `<n>. <todo as shown>`, counting from 1.
pub open spec fn numbered_lines(l: Seq<TodoModel>) -> Seq<Seq<char>> {
    Seq::new(l.len(), |i: int| decimal((i + 1) as nat) + seq!['.', ' '] + render(l[i]))
}

/// Todos as listed flat: each one's first line only, without numbers.
pub open spec fn plain_lines(l: Seq<TodoModel>) -> Seq<Seq<char>> {
    Seq::new(l.len(), |i: int| header(l[i]))
}

/// The root todos that a listing takes: all of them, or those whose flag is
/// the one given.
pub open spec fn selected(l: Seq<TodoModel>, flag: Option<bool>) -> Seq<TodoModel> {
    match flag {
        None => l,
        Some(f) => with_flag(l, f),
    }
}

/// The lines that list the selected root todos: numbered and with their
/// sub-todos, or flat.
fn listing(todos_list: &Vec<Todo>, flag: Option<bool>, numbered: bool) -> (r: Vec<String>)
    ensures
        texts(r@) == if numbered {
            numbered_lines(selected(list_model(todos_list@), flag))
        } else {
            plain_lines(selected(list_model(todos_list@), flag))
        },
{
    let ghost lm = list_model(todos_list@);
    proof {
        lemma_list_model(todos_list@);
        reveal_strlit(". ");
        assert(lm.take(0) =~= Seq::<TodoModel>::empty());
        assert(selected(Seq::<TodoModel>::empty(), flag) =~= Seq::<TodoModel>::empty()) by {
            if flag is Some {
                reveal(Seq::filter);
            }
        }
        assert(texts(Seq::<String>::empty()) =~= Seq::<Seq<char>>::empty());
    }
    let mut lines: Vec<String> = Vec::new();
    let mut i: usize = 0;
    while i < todos_list.len()
        invariant
            i <= todos_list@.len(),
            lm == list_model(todos_list@),
            lm.len() == todos_list@.len(),
            forall|k: int| 0 <= k < lm.len() ==> #[trigger] lm[k] == todo_model(todos_list@[k]),
            lines@.len() <= i,
            texts(lines@) == if numbered {
                numbered_lines(selected(lm.take(i as int), flag))
            } else {
                plain_lines(selected(lm.take(i as int), flag))
            },
        decreases todos_list@.len() - i,
    {
        let todo = &todos_list[i];
        let ghost before = selected(lm.take(i as int), flag);
        proof {
            assert(lm.take(i + 1) =~= lm.take(i as int).push(lm[i as int]));
            if flag is Some {
                lm.take(i as int).lemma_filter_push(lm[i as int], flag_is(flag->0));
            }
        }
        let wanted = match flag {
            None => true,
            Some(f) => todo.complete == f,
        };
        if wanted {
            let line = if numbered {
                let shown = todo.to_string();
                let mut l = decimal_string(lines.len() + 1);
                l.append(". ");
                l.append(shown.as_str());
                proof {
                    reveal_strlit(". ");
                    assert(l@ =~= decimal((lines@.len() + 1) as nat) + seq!['.', ' '] + render(
                        lm[i as int],
                    ));
                }
                l
            } else {
                todo.summary()
            };
            let ghost old_lines = lines@;
            lines.push(line);
            proof {
                reveal_strlit(". ");
                let after = selected(lm.take(i + 1), flag);
                assert(after =~= before.push(lm[i as int]));
                assert(texts(old_lines).len() == old_lines.len());
                assert(texts(old_lines).len() == before.len());
                assert(lines@ == old_lines.push(line));
                assert(texts(lines@).len() == after.len());
                assert forall|k: int| 0 <= k < before.len() implies #[trigger] texts(lines@)[k]
                    == texts(old_lines)[k] && after[k] == before[k] by {
                    assert(lines@[k] == old_lines[k]);
                }
                assert(texts(lines@)[before.len() as int] == line@);
                assert(after[before.len() as int] == lm[i as int]);
                if numbered {
                    assert(texts(lines@) =~= numbered_lines(after));
                } else {
                    assert(texts(lines@) =~= plain_lines(after));
                }
            }
        } else {
            proof {
                assert(selected(lm.take(i + 1), flag) =~= before);
            }
        }
        i = i + 1;
    }
    assert(lm.take(i as int) =~= lm);
    lines
}

/// The lines that `checkout` shows. With no todos at all, one line says so.
/// Otherwise `all` numbers every root todo and shows its sub-todos, `done`
/// lists the complete ones flat, and `todo` numbers the incomplete ones
/// among themselves; any other option is an invalid command.
pub fn checkout_list(todos_list: &Vec<Todo>, option: &str) -> (r: Result<Vec<String>, WhatodoError>)
    ensures
        todos_list@.len() == 0 ==> (r matches Ok(lines) && texts(lines@) == seq![
            "There are no todos!"@,
        ]),
        todos_list@.len() > 0 && option@ == "all"@ ==> (r matches Ok(lines) && texts(lines@)
            == numbered_lines(list_model(todos_list@))),
        todos_list@.len() > 0 && option@ == "done"@ ==> (r matches Ok(lines) && texts(lines@)
            == plain_lines(with_flag(list_model(todos_list@), true))),
        todos_list@.len() > 0 && option@ == "todo"@ ==> (r matches Ok(lines) && texts(lines@)
            == numbered_lines(with_flag(list_model(todos_list@), false))),
        todos_list@.len() > 0 && option@ != "all"@ && option@ != "done"@ && option@ != "todo"@
            ==> r == Err::<Vec<String>, WhatodoError>(WhatodoError::InvalidCommand),
{
    proof {
        reveal_strlit("all");
        reveal_strlit("done");
        reveal_strlit("todo");
    }
    if todos_list.len() == 0 {
        let lines = vec![String::from_str("There are no todos!")];
        assert(texts(lines@) =~= seq!["There are no todos!"@]);
        return Ok(lines);
    }
    let option_text = String::from_str(option);
    assert("all"@ != "done"@ && "all"@ != "todo"@ && "done"@ != "todo"@) by {
        assert("all"@.len() != "done"@.len());
        assert("done"@[0] != "todo"@[0]);
    }
    if option_text == String::from_str("all") {
        Ok(listing(todos_list, None, true))
    } else if option_text == String::from_str("done") {
        Ok(listing(todos_list, Some(true), false))
    } else if option_text == String::from_str("todo") {
        Ok(listing(todos_list, Some(false), true))
    } else {
        Err(WhatodoError::InvalidCommand)
    }
}

} // verus!
