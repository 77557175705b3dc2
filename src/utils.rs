//! Depth-paths: reading them from arguments, following them through the
//! tree, and searching the tree.

use crate::codec::char_vec;
use crate::error::WhatodoError;
use crate::todo::{
    lemma_list_model, lemma_list_model_update, list_model, todo_model, Todo, TodoModel,
};
use vstd::prelude::*;

verus! {

/// The list that a path of zero-based indices leads to: each index picks a
/// todo of the current list and descends into its sub-todos. The empty path
/// leads to the list itself.
pub open spec fn list_at(list: Seq<TodoModel>, path: Seq<usize>) -> Option<Seq<TodoModel>>
    decreases path.len(),
{
    if path.len() == 0 {
        Some(list)
    } else if path[0] < list.len() {
        list_at(list[path[0] as int].sub_todos, path.drop_first())
    } else {
        None
    }
}

/// The todo that a non-empty path names: the last index picks it from the
/// list that the other indices lead to.
pub open spec fn node_at(list: Seq<TodoModel>, path: Seq<usize>) -> Option<TodoModel> {
    if path.len() == 0 {
        None
    } else {
        match list_at(list, path.drop_last()) {
            Some(l) => if path.last() < l.len() {
                Some(l[path.last() as int])
            } else {
                None
            },
            None => None,
        }
    }
}

/// `list` with the list that `path` leads to replaced by `new`.
pub open spec fn replace_list_at(
    list: Seq<TodoModel>,
    path: Seq<usize>,
    new: Seq<TodoModel>,
) -> Seq<TodoModel>
    decreases path.len(),
{
    if path.len() == 0 {
        new
    } else if path[0] < list.len() {
        let t = list[path[0] as int];
        list.update(
            path[0] as int,
            TodoModel {
                complete: t.complete,
                contents: t.contents,
                sub_todos: replace_list_at(t.sub_todos, path.drop_first(), new),
            },
        )
    } else {
        list
    }
}

/// `list` with the todo that a non-empty `path` names replaced by `t`.
pub open spec fn replace_node_at(list: Seq<TodoModel>, path: Seq<usize>, t: TodoModel) -> Seq<
    TodoModel,
> {
    let l = list_at(list, path.drop_last())->0;
    replace_list_at(list, path.drop_last(), l.update(path.last() as int, t))
}

/// Some todo in `list`, at any depth, has exactly `needle` as contents.
pub open spec fn occurs_in(list: Seq<TodoModel>, needle: Seq<char>) -> bool
    decreases list,
{
    exists|i: int|
        #![trigger list[i]]
        0 <= i < list.len() && (list[i].contents == needle || occurs_in(list[i].sub_todos, needle))
}

/// Whether `s` holds only the digits `0` to `9`.
pub open spec fn all_digits(s: Seq<char>) -> bool {
    forall|i: int| 0 <= i < s.len() ==> '0' <= #[trigger] s[i] <= '9'
}

/// The number that a run of decimal digits writes.
pub open spec fn digits_value(s: Seq<char>) -> nat
    decreases s.len(),
{
    if s.len() == 0 {
        0
    } else {
        digits_value(s.drop_last()) * 10 + (s.last() as int - '0' as int) as nat
    }
}

/// The digits of a numeral, without the `+` that may lead them.
pub open spec fn unsigned_part(s: Seq<char>) -> Seq<char> {
    if s.len() > 0 && s[0] == '+' {
        s.drop_first()
    } else {
        s
    }
}

/// The `usize` that a text writes in decimal: an optional `+`, then at least
/// one digit, with a value that fits.
pub open spec fn numeral(s: Seq<char>) -> Option<usize> {
    let d = unsigned_part(s);
    if d.len() > 0 && all_digits(d) && digits_value(d) <= usize::MAX {
        Some(digits_value(d) as usize)
    } else {
        None
    }
}

/// Reads a decimal `usize` (see `numeral`).
pub fn parse_index(s: &str) -> (r: Option<usize>)
    ensures
        r == numeral(s@),
{
    let chars = char_vec(s);
    let n = chars.len();
    let start: usize = if n > 0 && chars[0] == '+' {
        1
    } else {
        0
    };
    let ghost d = unsigned_part(s@);
    proof {
        if start == 1 {
            assert(d =~= chars@.skip(1));
        } else {
            assert(d =~= chars@.skip(0));
        }
    }
    if start == n {
        return None;
    }
    let mut value: usize = 0;
    let mut overflow = false;
    let mut i = start;
    while i < n
        invariant
            start <= i <= n,
            start < n,
            chars@ == s@,
            n == chars@.len(),
            d == chars@.skip(start as int),
            d == unsigned_part(s@),
            all_digits(chars@.subrange(start as int, i as int)),
            !overflow ==> value == digits_value(chars@.subrange(start as int, i as int)),
            overflow ==> digits_value(chars@.subrange(start as int, i as int)) > usize::MAX,
        decreases n - i,
    {
        let c = chars[i];
        let ghost before = chars@.subrange(start as int, i as int);
        let ghost after = chars@.subrange(start as int, i + 1);
        assert(after.drop_last() =~= before);
        if c < '0' || c > '9' {
            proof {
                assert(d[i - start] == c);
                assert(!all_digits(d));
            }
            return None;
        }
        let digit = (c as u32 - '0' as u32) as usize;
        assert(all_digits(after)) by {
            assert forall|k: int| 0 <= k < after.len() implies '0' <= #[trigger] after[k] <= '9' by {
                if k < before.len() {
                    assert(after[k] == before[k]);
                }
            }
        }
        if !overflow {
            if value > (usize::MAX - digit) / 10 {
                overflow = true;
            } else {
                value = value * 10 + digit;
            }
        }
        i = i + 1;
    }
    assert(chars@.subrange(start as int, n as int) =~= d);
    if overflow {
        None
    } else {
        Some(value)
    }
}

/// The texts of a sequence of strings.
pub open spec fn texts(args: Seq<String>) -> Seq<Seq<char>> {
    args.map_values(|a: String| a@)
}

/// How many of the leading arguments are decimal numerals.
pub open spec fn numeral_count(args: Seq<Seq<char>>) -> nat
    decreases args.len(),
{
    if args.len() > 0 && numeral(args[0]) is Some {
        1 + numeral_count(args.drop_first())
    } else {
        0
    }
}

/// The zero-based path that the leading numerals of `args` write as
/// one-based positions; none when one of them is 0.
pub open spec fn item_path(args: Seq<Seq<char>>) -> Option<Seq<usize>> {
    let k = numeral_count(args);
    if forall|i: int| 0 <= i < k ==> numeral(#[trigger] args[i])->0 >= 1 {
        Some(Seq::new(k, |i: int| (numeral(args[i])->0 - 1) as usize))
    } else {
        None
    }
}

/// The leading numerals are the first `k` arguments when those are numerals
/// and the next is not.
proof fn lemma_numeral_count(args: Seq<Seq<char>>, k: int)
    requires
        0 <= k <= args.len(),
        forall|i: int| 0 <= i < k ==> numeral(#[trigger] args[i]) is Some,
    ensures
        numeral_count(args) >= k,
        k == args.len() || numeral(args[k]) is None ==> numeral_count(args) == k,
    decreases k,
{
    if k > 0 {
        let rest = args.drop_first();
        assert forall|i: int| 0 <= i < k - 1 implies numeral(#[trigger] rest[i]) is Some by {
            assert(rest[i] == args[i + 1]);
        }
        if k < args.len() {
            assert(rest[k - 1] == args[k]);
        }
        lemma_numeral_count(rest, k - 1);
    }
}

/// The path that the leading numerals among `args[..end]` write (see
/// `item_path`).
pub fn path_from_args(args: &Vec<String>, end: usize) -> (r: Result<Vec<usize>, WhatodoError>)
    requires
        end <= args@.len(),
    ensures
        match item_path(texts(args@).take(end as int)) {
            Some(p) => r matches Ok(v) && v@ == p,
            None => r == Err::<Vec<usize>, WhatodoError>(WhatodoError::IndexOutOfBounds),
        },
{
    let ghost a = texts(args@).take(end as int);
    let mut indices: Vec<usize> = Vec::new();
    let mut i: usize = 0;
    loop
        invariant
            i <= end <= args@.len(),
            a == texts(args@).take(end as int),
            a.len() == end,
            indices@.len() == i,
            forall|j: int| 0 <= j < i ==> numeral(#[trigger] a[j]) is Some,
            forall|j: int| 0 <= j < i ==> numeral(#[trigger] a[j])->0 >= 1,
            forall|j: int| 0 <= j < i ==> indices@[j] == numeral(#[trigger] a[j])->0 - 1,
        decreases end - i,
    {
        let next = if i < end {
            assert(a[i as int] == args@[i as int]@);
            parse_index(args[i].as_str())
        } else {
            None
        };
        match next {
            Some(n) => {
                if n == 0 {
                    proof {
                        lemma_numeral_count(a, i + 1);
                    }
                    return Err(WhatodoError::IndexOutOfBounds);
                }
                indices.push(n - 1);
                i = i + 1;
            },
            None => {
                proof {
                    lemma_numeral_count(a, i as int);
                    assert(indices@ =~= Seq::new(
                        i as nat,
                        |j: int| (numeral(a[j])->0 - 1) as usize,
                    ));
                }
                return Ok(indices);
            },
        }
    }
}

/// The path to a single todo that the leading arguments write: each
/// leading argument that is a decimal numeral is a one-based position, and
/// the result holds them as zero-based indices. A position of 0 is out of
/// bounds.
pub fn get_depth_iterator_item(args: &Vec<String>) -> (r: Result<Vec<usize>, WhatodoError>)
    ensures
        match item_path(texts(args@)) {
            Some(p) => r matches Ok(v) && v@ == p,
            None => r == Err::<Vec<usize>, WhatodoError>(WhatodoError::IndexOutOfBounds),
        },
{
    assert(texts(args@).take(args@.len() as int) =~= texts(args@));
    path_from_args(args, args.len())
}

/// The path to the list in which the todo that the leading arguments name
/// resides: the path of `get_depth_iterator_item` without its last index.
pub fn get_depth_iterator_list(args: &Vec<String>) -> (r: Result<Vec<usize>, WhatodoError>)
    ensures
        match item_path(texts(args@)) {
            Some(p) => r matches Ok(v) && v@ == (if p.len() > 0 {
                p.drop_last()
            } else {
                p
            }),
            None => r == Err::<Vec<usize>, WhatodoError>(WhatodoError::IndexOutOfBounds),
        },
{
    let mut indices = get_depth_iterator_item(args)?;
    if indices.len() > 0 {
        // the last index refers to the item itself
        indices.pop();
    }
    Ok(indices)
}

/// Whether any todo of the list, at any depth, has exactly `needle` as contents.
pub fn search_all_todos_content(todos_list: &Vec<Todo>, needle: &str) -> (r: bool)
    ensures
        r == occurs_in(list_model(todos_list@), needle@),
    decreases todos_list,
{
    let ghost lm = list_model(todos_list@);
    proof {
        lemma_list_model(todos_list@);
    }
    let target = String::from_str(needle);
    let mut i: usize = 0;
    while i < todos_list.len()
        invariant
            i <= todos_list@.len(),
            lm == list_model(todos_list@),
            lm.len() == todos_list@.len(),
            forall|k: int| 0 <= k < lm.len() ==> #[trigger] lm[k] == todos_list@[k]@,
            target@ == needle@,
            forall|j: int|
                #![trigger lm[j]]
                0 <= j < i ==> !(lm[j].contents == needle@ || occurs_in(lm[j].sub_todos, needle@)),
        decreases todos_list@.len() - i,
    {
        let todo = &todos_list[i];
        assert(lm[i as int].sub_todos == list_model(todo.sub_todos@));
        if todo.contents == target || search_all_todos_content(&todo.sub_todos, needle) {
            assert(lm[i as int].contents == needle@ || occurs_in(lm[i as int].sub_todos, needle@));
            return true;
        }
        i = i + 1;
    }
    false
}

/// The character of a decimal digit.
pub open spec fn digit_char(d: nat) -> char {
    if d == 0 {
        '0'
    } else if d == 1 {
        '1'
    } else if d == 2 {
        '2'
    } else if d == 3 {
        '3'
    } else if d == 4 {
        '4'
    } else if d == 5 {
        '5'
    } else if d == 6 {
        '6'
    } else if d == 7 {
        '7'
    } else if d == 8 {
        '8'
    } else {
        '9'
    }
}

/// A number written in decimal, without leading zeros.
pub open spec fn decimal(n: nat) -> Seq<char>
    decreases n,
{
    if n < 10 {
        seq![digit_char(n)]
    } else {
        decimal(n / 10) + seq![digit_char(n % 10)]
    }
}

/// The text of one decimal digit.
fn digit_text(d: usize) -> (r: &'static str)
    requires
        d < 10,
    ensures
        r@ == seq![digit_char(d as nat)],
{
    proof {
        reveal_strlit("0");
        reveal_strlit("1");
        reveal_strlit("2");
        reveal_strlit("3");
        reveal_strlit("4");
        reveal_strlit("5");
        reveal_strlit("6");
        reveal_strlit("7");
        reveal_strlit("8");
        reveal_strlit("9");
    }
    let r = if d == 0 {
        "0"
    } else if d == 1 {
        "1"
    } else if d == 2 {
        "2"
    } else if d == 3 {
        "3"
    } else if d == 4 {
        "4"
    } else if d == 5 {
        "5"
    } else if d == 6 {
        "6"
    } else if d == 7 {
        "7"
    } else if d == 8 {
        "8"
    } else {
        "9"
    };
    assert(r@ =~= seq![digit_char(d as nat)]);
    r
}

/// Writes `n` in decimal.
pub fn decimal_string(n: usize) -> (r: String)
    ensures
        r@ == decimal(n as nat),
    decreases n,
{
    let mut out = if n >= 10 {
        decimal_string(n / 10)
    } else {
        String::new()
    };
    out.append(digit_text(n % 10));
    assert(out@ =~= decimal(n as nat));
    out
}

/// The todo that `path[depth..]` names in `list`, to change in place.
fn node_mut_at<'a>(list: &'a mut Vec<Todo>, path: &Vec<usize>, depth: usize) -> (r: Option<
    &'a mut Todo,
>)
    requires
        depth < path@.len(),
    ensures
        node_at(list_model(old(list)@), path@.skip(depth as int)) is None ==> r is None
            && list_model(final(list)@) == list_model(old(list)@),
        node_at(list_model(old(list)@), path@.skip(depth as int)) is Some ==> r is Some,
        r matches Some(t) ==> t@ == node_at(list_model(old(list)@), path@.skip(depth as int))->0
            && list_model(final(list)@) == replace_node_at(
            list_model(old(list)@),
            path@.skip(depth as int),
            final(t)@,
        ),
    decreases path@.len() - depth,
{
    let ghost lm = list_model(list@);
    let ghost rest = path@.skip(depth as int);
    proof {
        lemma_list_model(list@);
    }
    let i = path[depth];
    proof {
        assert(rest[0] == i);
        assert(rest.drop_last().len() == 0 ==> rest.drop_last() =~= Seq::<usize>::empty());
    }
    if i >= list.len() {
        proof {
            if rest.len() > 1 {
                assert(rest.drop_last()[0] == i);
            }
        }
        return None;
    }
    if depth == path.len() - 1 {
        proof {
            assert(rest.drop_last() =~= Seq::<usize>::empty());
            assert(rest.last() == i);
        }
        let ghost before = list@;
        let t = &mut list[i];
        proof {
            lemma_list_model_update(before, i as int, *final(t));
        }
        return Some(t);
    }
    proof {
        assert(rest.drop_last()[0] == i);
        assert(rest.drop_last().drop_first() =~= path@.skip(depth + 1).drop_last());
        assert(rest.drop_first() =~= path@.skip(depth + 1));
        assert(path@.skip(depth + 1).last() == rest.last());
    }
    let ghost before = list@;
    let elem = &mut list[i];
    let ghost t0 = *elem;
    let ghost t2 = *final(elem);
    let subs = &mut elem.sub_todos;
    let ghost s2 = *final(subs);
    let r = node_mut_at(subs, path, depth + 1);
    proof {
        lemma_list_model_update(before, i as int, t2);
        assert(t2.complete == t0.complete);
        assert(t2.contents == t0.contents);
        assert(t2.sub_todos == s2);
        if r is None {
            assert(todo_model(t2) =~= todo_model(t0));
            assert(lm.update(i as int, todo_model(t2)) =~= lm);
        }
    }
    r
}

/// The todo that a non-empty path of zero-based indices names, to change in
/// place; none when the path leaves the tree. Whatever is done to it shows in
/// the tree afterwards, at that place.
pub fn get_mut_from_num_depth<'a>(todos_list: &'a mut Vec<Todo>, path: &Vec<usize>) -> (r: Option<
    &'a mut Todo,
>)
    ensures
        node_at(list_model(old(todos_list)@), path@) is None ==> r is None && list_model(
            final(todos_list)@,
        ) == list_model(old(todos_list)@),
        node_at(list_model(old(todos_list)@), path@) is Some ==> r is Some,
        r matches Some(t) ==> t@ == node_at(list_model(old(todos_list)@), path@)->0 && list_model(
            final(todos_list)@,
        ) == replace_node_at(list_model(old(todos_list)@), path@, final(t)@),
{
    if path.len() == 0 {
        return None;
    }
    assert(path@.skip(0) =~= path@);
    node_mut_at(todos_list, path, 0)
}

} // verus!
