//! The todo tree: its type, its mathematical model, and how a todo is
//! stored and shown.

use crate::codec::{char_vec, encode, encode_children};
use vstd::prelude::*;

pub use crate::codec::from_todo_string;

verus! {

/// The mathematical value of a todo: its flag, its text and its children.
pub struct TodoModel {
    pub complete: bool,
    pub contents: Seq<char>,
    pub sub_todos: Seq<TodoModel>,
}

/// One entry of a todo list, owning its nested sub-todos.
#[derive(Debug)]
pub struct Todo {
    pub complete: bool,
    pub contents: String,
    pub sub_todos: Vec<Todo>,
}

/// The model of one todo.
pub open spec fn todo_model(t: Todo) -> TodoModel
    decreases t,
{
    TodoModel {
        complete: t.complete,
        contents: t.contents@,
        sub_todos: list_model(t.sub_todos@),
    }
}

/// The models of a sequence of todos, one for one.
pub open spec fn list_model(s: Seq<Todo>) -> Seq<TodoModel>
    decreases s,
{
    if s.len() == 0 {
        Seq::empty()
    } else {
        list_model(s.drop_last()).push(todo_model(s.last()))
    }
}

/// The model of a sequence has one entry per todo, each the model of that todo.
pub(crate) proof fn lemma_list_model(s: Seq<Todo>)
    ensures
        list_model(s).len() == s.len(),
        forall|i: int| 0 <= i < s.len() ==> #[trigger] list_model(s)[i] == todo_model(s[i]),
    decreases s.len(),
{
    if s.len() > 0 {
        lemma_list_model(s.drop_last());
    }
}

/// Replacing one todo of a sequence replaces its model.
pub(crate) proof fn lemma_list_model_update(s: Seq<Todo>, i: int, t: Todo)
    requires
        0 <= i < s.len(),
    ensures
        list_model(s.update(i, t)) == list_model(s).update(i, todo_model(t)),
{
    lemma_list_model(s);
    lemma_list_model(s.update(i, t));
    assert(list_model(s.update(i, t)) =~= list_model(s).update(i, todo_model(t)));
}

/// Removing one todo of a sequence removes its model.
pub(crate) proof fn lemma_list_model_remove(s: Seq<Todo>, i: int)
    requires
        0 <= i < s.len(),
    ensures
        list_model(s.remove(i)) == list_model(s).remove(i),
{
    lemma_list_model(s);
    lemma_list_model(s.remove(i));
    assert(list_model(s.remove(i)) =~= list_model(s).remove(i));
}

/// Appending a todo appends its model.
pub(crate) proof fn lemma_list_model_push(s: Seq<Todo>, t: Todo)
    ensures
        list_model(s.push(t)) == list_model(s).push(todo_model(t)),
{
    assert(s.push(t).drop_last() =~= s);
}

impl View for Todo {
    type V = TodoModel;

    open spec fn view(&self) -> TodoModel {
        todo_model(*self)
    }
}

impl Todo {
    /// A todo without sub-todos; it is not complete unless `complete` says so.
    pub fn new(complete: Option<bool>, contents: String) -> (r: Todo)
        ensures
            r@ == (TodoModel {
                complete: complete == Some(true),
                contents: contents@,
                sub_todos: Seq::empty(),
            }),
            r.sub_todos@.len() == 0,
    {
        let r = Todo {
            complete: match complete {
                Some(b) => b,
                None => false,
            },
            contents,
            sub_todos: Vec::new(),
        };
        assert(list_model(r.sub_todos@) =~= Seq::<TodoModel>::empty());
        r
    }

    /// The line that stores this todo: `<flag>|<contents>|`, followed by
    /// `[<child>%<child>...]` when it has sub-todos.
    pub fn to_todos(&self) -> (r: String)
        ensures
            r@ == encode(self@),
        decreases self,
    {
        proof {
            reveal_strlit("0");
            reveal_strlit("1");
            reveal_strlit("|");
            reveal_strlit("[");
            reveal_strlit("]");
            reveal_strlit("%");
            lemma_list_model(self.sub_todos@);
        }
        let mut out = String::new();
        if self.complete {
            out.append("1");
        } else {
            out.append("0");
        }
        out.append("|");
        out.append(self.contents.as_str());
        out.append("|");
        let n = self.sub_todos.len();
        if n == 0 {
            return out;
        }
        let ghost head = out@;
        let ghost subs = self@.sub_todos;
        out.append("[");
        let mut i: usize = 0;
        while i < n
            invariant
                i <= n,
                n == self.sub_todos@.len(),
                subs == list_model(self.sub_todos@),
                subs.len() == n,
                forall|k: int| 0 <= k < n ==> #[trigger] subs[k] == todo_model(self.sub_todos@[k]),
                out@ == head + seq!['['] + encode_children(subs.take(i as int)),
            decreases n - i,
        {
            proof {
                reveal_strlit("%");
                crate::codec::lemma_encode_children_snoc(subs, i as int);
            }
            if i > 0 {
                out.append("%");
            }
            let child = self.sub_todos[i].to_todos();
            out.append(child.as_str());
            proof {
                assert(child@ == encode(subs[i as int]));
                assert(out@ =~= head + seq!['['] + encode_children(subs.take(i + 1)));
            }
            i = i + 1;
        }
        out.append("]");
        proof {
            assert(subs.take(n as int) =~= subs);
        }
        out
    }
}

/// The first line of a todo as shown: `[X] - <contents>` when complete,
/// `[ ] - <contents>` when not.
pub open spec fn header(m: TodoModel) -> Seq<char> {
    seq!['['] + (if m.complete {
        seq!['X']
    } else {
        seq![' ']
    }) + seq![']', ' ', '-', ' '] + m.contents
}

/// A text with `- ` put after each newline.
pub open spec fn indent(s: Seq<char>) -> Seq<char>
    decreases s.len(),
{
    if s.len() == 0 {
        s
    } else {
        indent(s.drop_last()) + if s.last() == '\n' {
            seq!['\n', '-', ' ']
        } else {
            seq![s.last()]
        }
    }
}

/// A todo as shown: its header, then each sub-todo as shown, on lines of
/// its own that begin with one more `- `.
pub open spec fn render(m: TodoModel) -> Seq<char>
    decreases m,
{
    header(m) + render_children(m.sub_todos)
}

/// Sub-todos as shown below their parent.
pub open spec fn render_children(s: Seq<TodoModel>) -> Seq<char>
    decreases s,
{
    if s.len() == 0 {
        Seq::empty()
    } else {
        render_children(s.drop_last()) + seq!['\n', '-', ' '] + indent(render(s.last()))
    }
}

/// Indenting goes character by character.
proof fn lemma_indent_concat(a: Seq<char>, b: Seq<char>)
    ensures
        indent(a + b) == indent(a) + indent(b),
    decreases b.len(),
{
    if b.len() == 0 {
        assert(a + b =~= a);
        assert(indent(a) + indent(b) =~= indent(a));
    } else {
        lemma_indent_concat(a, b.drop_last());
        assert((a + b).drop_last() =~= a + b.drop_last());
    }
}

/// A text without newlines is its own indentation.
proof fn lemma_indent_plain(b: Seq<char>)
    requires
        forall|i: int| 0 <= i < b.len() ==> b[i] != '\n',
    ensures
        indent(b) == b,
    decreases b.len(),
{
    if b.len() > 0 {
        lemma_indent_plain(b.drop_last());
        assert(b.drop_last() + seq![b.last()] =~= b);
    }
}

/// Appends `s` to `out`, with `- ` after each of its newlines.
fn append_indented(out: &mut String, s: &String)
    ensures
        final(out)@ == old(out)@ + indent(s@),
{
    let text = s.as_str();
    let chars = char_vec(text);
    let n = chars.len();
    let mut start: usize = 0;
    let mut j: usize = 0;
    proof {
        reveal_strlit("\n- ");
        assert(s@.take(0) =~= Seq::<char>::empty());
    }
    while j < n
        invariant
            start <= j <= n,
            n == s@.len(),
            chars@ == s@,
            text@ == s@,
            out@ == old(out)@ + indent(s@.take(start as int)),
            forall|k: int| start <= k < j ==> s@[k] != '\n',
        decreases n - j,
    {
        if chars[j] == '\n' {
            let ghost seg = s@.subrange(start as int, j as int);
            out.append(text.substring_char(start, j));
            out.append("\n- ");
            proof {
                reveal_strlit("\n- ");
                assert(s@.take(j + 1) =~= s@.take(start as int) + (seg + seq!['\n']));
                lemma_indent_concat(s@.take(start as int), seg + seq!['\n']);
                lemma_indent_concat(seg, seq!['\n']);
                lemma_indent_plain(seg);
                assert(seq!['\n'].drop_last() =~= Seq::<char>::empty());
                assert(indent(Seq::<char>::empty()) == Seq::<char>::empty());
                assert(seq!['\n'].last() == '\n');
                assert(indent(seq!['\n']) =~= seq!['\n', '-', ' ']);
                assert(out@ =~= old(out)@ + indent(s@.take(j + 1)));
            }
            start = j + 1;
        }
        j = j + 1;
    }
    let ghost seg = s@.subrange(start as int, n as int);
    out.append(text.substring_char(start, n));
    proof {
        assert(s@ =~= s@.take(start as int) + seg);
        lemma_indent_concat(s@.take(start as int), seg);
        lemma_indent_plain(seg);
        assert(s@.take(n as int) =~= s@);
    }
}

impl Todo {
    /// The todo as shown to a person (see `render`).
    pub fn to_string(&self) -> (r: String)
        ensures
            r@ == render(self@),
        decreases self,
    {
        proof {
            reveal_strlit("[X] - ");
            reveal_strlit("[ ] - ");
            reveal_strlit("\n- ");
            lemma_list_model(self.sub_todos@);
        }
        let mut out = if self.complete {
            String::from_str("[X] - ")
        } else {
            String::from_str("[ ] - ")
        };
        out.append(self.contents.as_str());
        let ghost subs = self@.sub_todos;
        assert(out@ =~= header(self@));
        let mut i: usize = 0;
        while i < self.sub_todos.len()
            invariant
                i <= self.sub_todos@.len(),
                subs == list_model(self.sub_todos@),
                subs.len() == self.sub_todos@.len(),
                forall|k: int|
                    0 <= k < subs.len() ==> #[trigger] subs[k] == todo_model(self.sub_todos@[k]),
                out@ == header(self@) + render_children(subs.take(i as int)),
            decreases self.sub_todos@.len() - i,
        {
            let child = self.sub_todos[i].to_string();
            out.append("\n- ");
            append_indented(&mut out, &child);
            proof {
                reveal_strlit("\n- ");
                assert(subs.take(i + 1).drop_last() =~= subs.take(i as int));
                assert(out@ =~= header(self@) + render_children(subs.take(i + 1)));
            }
            i = i + 1;
        }
        assert(subs.take(i as int) =~= subs);
        out
    }
}

impl Todo {
    /// The first line of the todo as shown, without its sub-todos (see `header`).
    pub fn summary(&self) -> (r: String)
        ensures
            r@ == header(self@),
    {
        proof {
            reveal_strlit("[X] - ");
            reveal_strlit("[ ] - ");
        }
        let mut out = if self.complete {
            String::from_str("[X] - ")
        } else {
            String::from_str("[ ] - ")
        };
        out.append(self.contents.as_str());
        assert(out@ =~= header(self@));
        out
    }
}

impl PartialEq for Todo {
    /// Two todos are equal when their contents are: neither the flag nor the
    /// sub-todos count.
    fn eq(&self, other: &Todo) -> (r: bool) {
        self.contents == other.contents
    }
}

impl vstd::std_specs::cmp::PartialEqSpecImpl for Todo {
    open spec fn obeys_eq_spec() -> bool {
        true
    }

    open spec fn eq_spec(&self, other: &Todo) -> bool {
        self.contents@ == other.contents@
    }
}

} // verus!
