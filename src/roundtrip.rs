//! What storage keeps exactly, and the proofs that it does: a todo, and a
//! whole list, read back as they were written.

use crate::codec::{
    after_field, encode, encode_children, flag_text, flag_value, is_reserved, lemma_field_len,
    parse_line, parse_siblings, parse_todo, plain_text, storable_text, tokenize, tokenize_rest,
    TokenModel,
};
use crate::commands::{addition, completed, completion, leaf, removal, remove_node_at};
use crate::storage::{
    after_line, all_parse, encode_all, first_line, lemma_line_len, line_len, parsed_lines,
    text_lines,
};
use crate::todo::{lemma_list_model, list_model, Todo, TodoModel};
use crate::utils::{list_at, node_at, replace_list_at, replace_node_at};
use vstd::prelude::*;

verus! {

/// A sub-todo that storage keeps exactly: non-empty plain contents, and so
/// for all its own sub-todos.
pub open spec fn storable_child(m: TodoModel) -> bool
    decreases m,
{
    &&& m.contents.len() > 0
    &&& plain_text(m.contents)
    &&& forall|i: int| 0 <= i < m.sub_todos.len() ==> storable_child(#[trigger] m.sub_todos[i])
}

/// A root todo that storage keeps exactly: plain contents (possibly empty),
/// and storable sub-todos.
pub open spec fn storable(m: TodoModel) -> bool {
    &&& plain_text(m.contents)
    &&& forall|i: int| 0 <= i < m.sub_todos.len() ==> storable_child(#[trigger] m.sub_todos[i])
}

/// The tokens that stand for a todo.
pub open spec fn todo_tokens(m: TodoModel) -> Seq<TokenModel>
    decreases m,
{
    let head = seq![
        TokenModel::TodoValue(flag_text(m.complete)),
        TokenModel::FieldSeparator,
        TokenModel::TodoValue(m.contents),
        TokenModel::FieldSeparator,
    ];
    if m.sub_todos.len() == 0 {
        head
    } else {
        head + seq![TokenModel::TodoArrBeg] + children_tokens(m.sub_todos) + seq![
            TokenModel::TodoArrEnd,
        ]
    }
}

/// The tokens that stand for sibling todos, separated by `%` tokens.
pub open spec fn children_tokens(s: Seq<TodoModel>) -> Seq<TokenModel>
    decreases s,
{
    if s.len() == 0 {
        Seq::empty()
    } else if s.len() == 1 {
        todo_tokens(s[0])
    } else {
        todo_tokens(s[0]) + seq![TokenModel::TodoSeparator] + children_tokens(s.drop_first())
    }
}

/// A run of text up to a `|` gives a value token and a field separator.
proof fn lemma_value_run(v: Seq<char>, x: Seq<char>)
    requires
        v.len() > 0,
        v[0] != '[' && v[0] != ']' && v[0] != '%',
        forall|i: int| 0 <= i < v.len() ==> v[i] != '|',
    ensures
        tokenize_rest(v + seq!['|'] + x) == seq![
            TokenModel::TodoValue(v),
            TokenModel::FieldSeparator,
        ] + tokenize_rest(x),
{
    let s = v + seq!['|'] + x;
    lemma_field_len(s, v.len() as int);
    assert(s.take(v.len() as int) =~= v);
    assert(after_field(s, v.len()) =~= x);
}

/// A structural character gives its own token.
proof fn lemma_marker(c: char, x: Seq<char>)
    requires
        c == '|' || c == '[' || c == ']' || c == '%',
    ensures
        tokenize_rest(seq![c] + x) == seq![
            if c == '|' {
                TokenModel::FieldSeparator
            } else if c == '[' {
                TokenModel::TodoArrBeg
            } else if c == ']' {
                TokenModel::TodoArrEnd
            } else {
                TokenModel::TodoSeparator
            },
        ] + tokenize_rest(x),
{
    assert((seq![c] + x).drop_first() =~= x);
}

/// The tokens of a stored sub-todo, whatever follows it.
proof fn lemma_tokenize_child(m: TodoModel, x: Seq<char>)
    requires
        storable_child(m),
    ensures
        tokenize_rest(encode(m) + x) == todo_tokens(m) + tokenize_rest(x),
    decreases m,
{
    let f = flag_text(m.complete);
    let c = m.contents;
    let tail = if m.sub_todos.len() == 0 {
        x
    } else {
        seq!['['] + encode_children(m.sub_todos) + seq![']'] + x
    };
    assert(encode(m) + x =~= f + seq!['|'] + (c + seq!['|'] + tail));
    lemma_value_run(f, c + seq!['|'] + tail);
    lemma_value_run(c, tail);
    let head = seq![
        TokenModel::TodoValue(f),
        TokenModel::FieldSeparator,
        TokenModel::TodoValue(c),
        TokenModel::FieldSeparator,
    ];
    assert(tokenize_rest(encode(m) + x) =~= head + tokenize_rest(tail));
    if m.sub_todos.len() > 0 {
        let inner = encode_children(m.sub_todos);
        lemma_marker('[', inner + (seq![']'] + x));
        lemma_tokenize_children(m.sub_todos, seq![']'] + x);
        lemma_marker(']', x);
        assert(tail =~= seq!['['] + (inner + (seq![']'] + x)));
        assert(todo_tokens(m) + tokenize_rest(x) =~= head + (seq![TokenModel::TodoArrBeg] + (
        children_tokens(m.sub_todos) + (seq![TokenModel::TodoArrEnd] + tokenize_rest(x)))));
    }
}

/// The tokens of stored siblings, whatever follows them.
proof fn lemma_tokenize_children(s: Seq<TodoModel>, x: Seq<char>)
    requires
        s.len() > 0,
        forall|i: int| 0 <= i < s.len() ==> storable_child(#[trigger] s[i]),
    ensures
        tokenize_rest(encode_children(s) + x) == children_tokens(s) + tokenize_rest(x),
    decreases s,
{
    lemma_tokenize_child(s[0], if s.len() == 1 {
        x
    } else {
        seq!['%'] + (encode_children(s.drop_first()) + x)
    });
    if s.len() > 1 {
        let rest = s.drop_first();
        assert(forall|i: int| 0 <= i < rest.len() ==> #[trigger] rest[i] == s[i + 1]);
        lemma_marker('%', encode_children(rest) + x);
        lemma_tokenize_children(rest, x);
        assert(encode_children(s) + x =~= encode(s[0]) + (seq!['%'] + (encode_children(rest)
            + x)));
        assert(children_tokens(s) + tokenize_rest(x) =~= todo_tokens(s[0]) + (seq![
            TokenModel::TodoSeparator,
        ] + (children_tokens(rest) + tokenize_rest(x))));
    }
}

/// The tokens of a stored root todo.
proof fn lemma_tokenize_root(m: TodoModel)
    requires
        storable(m),
    ensures
        tokenize(encode(m)) == todo_tokens(m),
{
    let s = encode(m);
    let f = flag_text(m.complete);
    let c = m.contents;
    let tail = if m.sub_todos.len() == 0 {
        Seq::empty()
    } else {
        seq!['['] + encode_children(m.sub_todos) + seq![']']
    };
    assert(s =~= f + seq!['|'] + (c + seq!['|'] + tail));
    lemma_field_len(s, 1);
    let r1 = after_field(s, 1);
    assert(r1 =~= c + seq!['|'] + tail);
    lemma_field_len(r1, c.len() as int);
    let r2 = after_field(r1, c.len());
    assert(r2 =~= tail);
    assert(s.take(1) =~= f);
    assert(r1.take(c.len() as int) =~= c);
    if m.sub_todos.len() > 0 {
        let inner = encode_children(m.sub_todos);
        lemma_marker('[', inner + seq![']']);
        lemma_tokenize_children(m.sub_todos, seq![']']);
        lemma_marker(']', Seq::empty());
        assert(tail =~= seq!['['] + (inner + seq![']']));
        assert(seq![']'] =~= seq![']'] + Seq::<char>::empty());
        assert(tokenize_rest(tail) =~= seq![TokenModel::TodoArrBeg] + children_tokens(m.sub_todos)
            + seq![TokenModel::TodoArrEnd]);
    }
    assert(tokenize(s) =~= todo_tokens(m));
}

/// The first four tokens of a todo: its flag, its contents, two separators.
proof fn lemma_todo_tokens_len(m: TodoModel)
    ensures
        todo_tokens(m).len() >= 4,
        todo_tokens(m)[0] == TokenModel::TodoValue(flag_text(m.complete)),
        todo_tokens(m)[1] == TokenModel::FieldSeparator,
        todo_tokens(m)[2] == TokenModel::TodoValue(m.contents),
        todo_tokens(m)[3] == TokenModel::FieldSeparator,
{
}

/// The parser reads a todo back from its tokens, when no `[` follows them.
proof fn lemma_parse_child(toks: Seq<TokenModel>, pos: int, m: TodoModel)
    requires
        0 <= pos,
        pos + todo_tokens(m).len() <= toks.len(),
        toks.subrange(pos, pos + todo_tokens(m).len()) == todo_tokens(m),
        pos + todo_tokens(m).len() == toks.len() || !(toks[pos
            + todo_tokens(m).len()] is TodoArrBeg),
    ensures
        parse_todo(toks, pos) == Some((m, pos + todo_tokens(m).len())),
    decreases m,
{
    let tt = todo_tokens(m);
    lemma_todo_tokens_len(m);
    assert forall|i: int| 0 <= i < tt.len() implies toks[pos + i] == #[trigger] tt[i] by {
        assert(toks.subrange(pos, pos + tt.len())[i] == toks[pos + i]);
    }
    assert(toks[pos] == tt[0]);
    assert(toks[pos + 1] == tt[1]);
    assert(toks[pos + 2] == tt[2]);
    assert(toks[pos + 3] == tt[3]);
    assert(flag_value(flag_text(m.complete)) == Some(m.complete)) by {
        assert(seq!['0'][0] != seq!['1'][0]);
    }
    if m.sub_todos.len() == 0 {
        assert(m.sub_todos =~= Seq::<TodoModel>::empty());
    } else {
        let ct = children_tokens(m.sub_todos);
        assert(tt =~= seq![
            TokenModel::TodoValue(flag_text(m.complete)),
            TokenModel::FieldSeparator,
            TokenModel::TodoValue(m.contents),
            TokenModel::FieldSeparator,
        ] + seq![TokenModel::TodoArrBeg] + ct + seq![TokenModel::TodoArrEnd]);
        assert(toks[pos + 4] == tt[4]);
        assert(toks.subrange(pos + 5, pos + 5 + ct.len()) =~= ct) by {
            assert forall|i: int| 0 <= i < ct.len() implies toks.subrange(
                pos + 5,
                pos + 5 + ct.len(),
            )[i] == ct[i] by {
                assert(tt[5 + i] == ct[i]);
            }
        }
        assert(toks[pos + 5 + ct.len()] == tt[5 + ct.len() as int]);
        lemma_parse_children(toks, pos + 5, m.sub_todos);
    }
}

/// The parser reads siblings back from their tokens and the closing `]`.
proof fn lemma_parse_children(toks: Seq<TokenModel>, pos: int, s: Seq<TodoModel>)
    requires
        s.len() > 0,
        0 <= pos,
        pos + children_tokens(s).len() < toks.len(),
        toks.subrange(pos, pos + children_tokens(s).len()) == children_tokens(s),
        toks[pos + children_tokens(s).len()] is TodoArrEnd,
    ensures
        parse_siblings(toks, pos) == Some((s, pos + children_tokens(s).len() + 1)),
    decreases s,
{
    let ct = children_tokens(s);
    let first = todo_tokens(s[0]);
    lemma_todo_tokens_len(s[0]);
    if s.len() == 1 {
        lemma_parse_child(toks, pos, s[0]);
        assert(seq![s[0]] =~= s);
    } else {
        let rest = s.drop_first();
        let rt = children_tokens(rest);
        assert(ct =~= first + seq![TokenModel::TodoSeparator] + rt);
        assert(toks.subrange(pos, pos + first.len()) =~= first) by {
            assert forall|i: int| 0 <= i < first.len() implies toks.subrange(
                pos,
                pos + first.len(),
            )[i] == first[i] by {
                assert(toks.subrange(pos, pos + ct.len())[i] == ct[i]);
            }
        }
        assert(toks[pos + first.len()] == ct[first.len() as int]) by {
            assert(toks.subrange(pos, pos + ct.len())[first.len() as int] == ct[first.len() as int]);
        }
        lemma_parse_child(toks, pos, s[0]);
        let next = pos + first.len() + 1;
        assert(toks.subrange(next, next + rt.len()) =~= rt) by {
            assert forall|i: int| 0 <= i < rt.len() implies toks.subrange(next, next + rt.len())[i]
                == rt[i] by {
                assert(toks.subrange(pos, pos + ct.len())[first.len() + 1 + i] == ct[first.len()
                    + 1 + i]);
            }
        }
        lemma_parse_children(toks, next, rest);
        assert(seq![s[0]] + rest =~= s);
    }
}

/// Storing a todo and reading the line back gives the same todo, flag,
/// contents and sub-todos alike, whenever no contents holds a reserved
/// character and no sub-todo has empty contents.
pub proof fn lemma_round_trip(t: Todo)
    requires
        storable(t@),
    ensures
        parse_line(encode(t@)) == Some(t@),
{
    lemma_line_round_trip(t@);
}

/// The line of a storable todo reads back as that todo.
proof fn lemma_line_round_trip(m: TodoModel)
    requires
        storable(m),
    ensures
        parse_line(encode(m)) == Some(m),
{
    lemma_tokenize_root(m);
    let tt = todo_tokens(m);
    assert(tt.subrange(0, tt.len() as int) =~= tt);
    lemma_parse_child(tt, 0, m);
}

/// A text without newlines.
pub open spec fn one_line(s: Seq<char>) -> bool {
    forall|i: int| 0 <= i < s.len() ==> s[i] != '\n'
}

/// Joining two texts without newlines gives one without newlines.
proof fn lemma_one_line_concat(a: Seq<char>, b: Seq<char>)
    requires
        one_line(a),
        one_line(b),
    ensures
        one_line(a + b),
{
    assert forall|i: int| 0 <= i < (a + b).len() implies (a + b)[i] != '\n' by {
        if i < a.len() {
            assert((a + b)[i] == a[i]);
        } else {
            assert((a + b)[i] == b[i - a.len()]);
        }
    }
}

/// The stored text of a storable todo is one non-empty line, ended by `|` or `]`.
proof fn lemma_encode_one_line(m: TodoModel)
    requires
        plain_text(m.contents),
        forall|i: int| 0 <= i < m.sub_todos.len() ==> storable_child(#[trigger] m.sub_todos[i]),
    ensures
        one_line(encode(m)),
        encode(m).len() > 0,
        encode(m).last() == '|' || encode(m).last() == ']',
    decreases m,
{
    let f = flag_text(m.complete);
    assert(one_line(f));
    assert(one_line(seq!['|']));
    assert(one_line(m.contents)) by {
        assert forall|i: int| 0 <= i < m.contents.len() implies m.contents[i] != '\n' by {
            assert(!is_reserved(m.contents[i]));
        }
    }
    lemma_one_line_concat(f, seq!['|']);
    lemma_one_line_concat(f + seq!['|'], m.contents);
    lemma_one_line_concat(f + seq!['|'] + m.contents, seq!['|']);
    let head = f + seq!['|'] + m.contents + seq!['|'];
    if m.sub_todos.len() > 0 {
        lemma_encode_children_one_line(m.sub_todos);
        assert(one_line(seq!['[']));
        assert(one_line(seq![']']));
        lemma_one_line_concat(head, seq!['[']);
        lemma_one_line_concat(head + seq!['['], encode_children(m.sub_todos));
        lemma_one_line_concat(head + seq!['['] + encode_children(m.sub_todos), seq![']']);
    }
}

/// The stored text of storable siblings holds no newline.
proof fn lemma_encode_children_one_line(s: Seq<TodoModel>)
    requires
        forall|i: int| 0 <= i < s.len() ==> storable_child(#[trigger] s[i]),
    ensures
        one_line(encode_children(s)),
    decreases s,
{
    if s.len() > 0 {
        lemma_encode_one_line(s[0]);
        if s.len() > 1 {
            let rest = s.drop_first();
            assert(forall|i: int| 0 <= i < rest.len() ==> #[trigger] rest[i] == s[i + 1]);
            lemma_encode_children_one_line(rest);
            assert(one_line(seq!['%']));
            lemma_one_line_concat(encode(s[0]), seq!['%']);
            lemma_one_line_concat(encode(s[0]) + seq!['%'], encode_children(rest));
        }
    }
}

/// `line_len` stops at the first newline.
proof fn lemma_line_len_props(s: Seq<char>)
    ensures
        line_len(s) <= s.len(),
        line_len(s) < s.len() ==> s[line_len(s) as int] == '\n',
        forall|i: int| 0 <= i < line_len(s) ==> s[i] != '\n',
    decreases s.len(),
{
    if s.len() > 0 && s[0] != '\n' {
        let t = s.drop_first();
        lemma_line_len_props(t);
        assert forall|i: int| 0 <= i < line_len(s) implies s[i] != '\n' by {
            if i > 0 {
                assert(s[i] == t[i - 1]);
            }
        }
    }
}

/// Lines split apart at a line end: the lines of `a + b` are those of `a`
/// and then those of `b`, when `a` is empty or ends with a newline.
proof fn lemma_lines_concat(a: Seq<char>, b: Seq<char>)
    requires
        a.len() == 0 || a.last() == '\n',
    ensures
        text_lines(a + b) == text_lines(a) + text_lines(b),
    decreases a.len(),
{
    if a.len() == 0 {
        assert(a + b =~= b);
        assert(text_lines(a) =~= Seq::<Seq<char>>::empty());
        assert(text_lines(a) + text_lines(b) =~= text_lines(b));
    } else {
        let k = line_len(a);
        lemma_line_len_props(a);
        if k == a.len() {
            assert(a[a.len() - 1] != '\n');
        }
        assert(k < a.len());
        let ab = a + b;
        lemma_line_len(ab, k as int);
        assert(ab.take(k as int) =~= a.take(k as int));
        if k > 0 {
            assert(ab[k - 1] == a[k - 1]);
            assert(ab.take(k - 1) =~= a.take(k - 1));
        }
        assert(first_line(ab) == first_line(a));
        let rest = after_line(a);
        assert(after_line(ab) =~= rest + b);
        if rest.len() > 0 {
            assert(rest.last() == a.last());
        }
        lemma_lines_concat(rest, b);
        if first_line(a).len() == 0 {
        } else {
            assert(seq![first_line(a)] + (text_lines(rest) + text_lines(b)) =~= (seq![
                first_line(a),
            ] + text_lines(rest)) + text_lines(b));
        }
    }
}

/// One line of text with its newline gives that one line back.
proof fn lemma_single_line(l: Seq<char>)
    requires
        l.len() > 0,
        one_line(l),
        l.last() != '\r',
    ensures
        text_lines(l + seq!['\n']) == seq![l],
{
    let s = l + seq!['\n'];
    lemma_line_len(s, l.len() as int);
    assert(s[l.len() - 1] == l.last());
    assert(s.take(l.len() as int) =~= l);
    assert(after_line(s) =~= Seq::<char>::empty());
    assert(text_lines(Seq::<char>::empty()) =~= Seq::<Seq<char>>::empty());
    assert(seq![l] + Seq::<Seq<char>>::empty() =~= seq![l]);
}

/// The stored text of storable root todos reads back as those todos.
proof fn lemma_text_round_trip_models(lm: Seq<TodoModel>)
    requires
        forall|i: int| 0 <= i < lm.len() ==> storable(#[trigger] lm[i]),
    ensures
        all_parse(text_lines(encode_all(lm))),
        parsed_lines(text_lines(encode_all(lm))) == lm,
    decreases lm.len(),
{
    if lm.len() == 0 {
        assert(text_lines(encode_all(lm)) =~= Seq::<Seq<char>>::empty());
        assert(parsed_lines(Seq::<Seq<char>>::empty()) =~= lm);
    } else {
        let prefix = lm.drop_last();
        let last = lm.last();
        assert(forall|i: int| 0 <= i < prefix.len() ==> #[trigger] prefix[i] == lm[i]);
        lemma_text_round_trip_models(prefix);
        let before = encode_all(prefix);
        let line = encode(last);
        lemma_encode_one_line(last);
        lemma_single_line(line);
        lemma_line_round_trip(last);
        assert(encode_all(lm) =~= before + (line + seq!['\n']));
        if prefix.len() > 0 {
            assert(before.last() == '\n');
        }
        lemma_lines_concat(before, line + seq!['\n']);
        let lines = text_lines(encode_all(lm));
        assert(lines =~= text_lines(before).push(line));
        assert(parsed_lines(lines) =~= parsed_lines(text_lines(before)).push(last));
        assert(parsed_lines(lines) =~= lm);
        assert forall|i: int| 0 <= i < lines.len() implies (#[trigger] parse_line(lines[i])) is Some by {
            if i < lines.len() - 1 {
                assert(lines[i] == text_lines(before)[i]);
            }
        }
    }
}

/// Storing a whole list and reading the text back gives the same todos in
/// the same order, whenever each root todo can be stored exactly (see
/// `storable`): every line reads back, one root todo per line.
pub proof fn lemma_text_round_trip(todos_list: Vec<Todo>)
    requires
        forall|i: int|
            0 <= i < todos_list@.len() ==> storable(#[trigger] list_model(todos_list@)[i]),
    ensures
        all_parse(text_lines(encode_all(list_model(todos_list@)))),
        parsed_lines(text_lines(encode_all(list_model(todos_list@)))) == list_model(todos_list@),
{
    lemma_list_model(todos_list@);
    lemma_text_round_trip_models(list_model(todos_list@));
}

/// Every root todo of the list can be stored exactly.
pub open spec fn all_storable(l: Seq<TodoModel>) -> bool {
    forall|i: int| 0 <= i < l.len() ==> storable(#[trigger] l[i])
}

/// Every todo of the list can be stored exactly as a sub-todo.
pub open spec fn all_storable_children(l: Seq<TodoModel>) -> bool {
    forall|i: int| 0 <= i < l.len() ==> storable_child(#[trigger] l[i])
}

/// A list reached inside storable sub-todos holds storable sub-todos.
proof fn lemma_list_at_children(l: Seq<TodoModel>, path: Seq<usize>)
    requires
        all_storable_children(l),
        list_at(l, path) is Some,
    ensures
        all_storable_children(list_at(l, path)->0),
    decreases path.len(),
{
    if path.len() > 0 {
        let t = l[path[0] as int];
        assert(storable_child(t));
        lemma_list_at_children(t.sub_todos, path.drop_first());
    }
}

/// Replacing a list inside storable sub-todos by storable sub-todos keeps them storable.
proof fn lemma_replace_children(l: Seq<TodoModel>, path: Seq<usize>, new: Seq<TodoModel>)
    requires
        all_storable_children(l),
        all_storable_children(new),
        list_at(l, path) is Some,
    ensures
        all_storable_children(replace_list_at(l, path, new)),
    decreases path.len(),
{
    if path.len() > 0 {
        let k = path[0] as int;
        let t = l[k];
        assert(storable_child(t));
        lemma_replace_children(t.sub_todos, path.drop_first(), new);
        let r = replace_list_at(l, path, new);
        assert forall|i: int| 0 <= i < r.len() implies storable_child(#[trigger] r[i]) by {
            if i != k {
                assert(r[i] == l[i]);
            }
        }
    }
}

/// Replacing a list of the tree by a list of storable sub-todos (or, at the
/// root, of storable todos) keeps the whole tree storable.
proof fn lemma_replace_keeps_storable(l: Seq<TodoModel>, path: Seq<usize>, new: Seq<TodoModel>)
    requires
        all_storable(l),
        list_at(l, path) is Some,
        path.len() == 0 ==> all_storable(new),
        path.len() > 0 ==> all_storable_children(new),
    ensures
        all_storable(replace_list_at(l, path, new)),
{
    if path.len() > 0 {
        let k = path[0] as int;
        let t = l[k];
        assert(storable(t));
        lemma_replace_children(t.sub_todos, path.drop_first(), new);
        let r = replace_list_at(l, path, new);
        assert forall|i: int| 0 <= i < r.len() implies storable(#[trigger] r[i]) by {
            if i != k {
                assert(r[i] == l[i]);
            }
        }
    }
}

/// The list that a path leads to in a storable tree holds storable todos:
/// sub-todos below the root, root todos at it.
proof fn lemma_list_at_storable(l: Seq<TodoModel>, path: Seq<usize>)
    requires
        all_storable(l),
        list_at(l, path) is Some,
    ensures
        path.len() == 0 ==> all_storable(list_at(l, path)->0),
        path.len() > 0 ==> all_storable_children(list_at(l, path)->0),
{
    if path.len() > 0 {
        let t = l[path[0] as int];
        assert(storable(t));
        lemma_list_at_children(t.sub_todos, path.drop_first());
    }
}

/// Adding, completing or removing a todo keeps a tree storable: a tree
/// built by these commands from storable todos always reads back exactly.
pub proof fn lemma_commands_keep_storable(list: Seq<TodoModel>, path: Seq<usize>, contents: Seq<char>)
    requires
        all_storable(list),
    ensures
        addition(list, path, contents) matches Ok(l) ==> all_storable(l),
        completion(list, path) matches Ok(l) ==> all_storable(l),
        removal(list, path) matches Ok(l) ==> all_storable(l),
{
    if addition(list, path, contents) is Ok {
        let l = list_at(list, path)->0;
        lemma_list_at_storable(list, path);
        let new = l.push(leaf(contents));
        assert(storable_text(contents));
        assert(storable_child(leaf(contents)));
        if path.len() == 0 {
            assert forall|i: int| 0 <= i < new.len() implies storable(#[trigger] new[i]) by {
                if i < l.len() {
                    assert(new[i] == l[i]);
                }
            }
        } else {
            assert forall|i: int| 0 <= i < new.len() implies storable_child(#[trigger] new[i]) by {
                if i < l.len() {
                    assert(new[i] == l[i]);
                }
            }
        }
        lemma_replace_keeps_storable(list, path, new);
    }
    if path.len() > 0 && node_at(list, path) is Some {
        let prefix = path.drop_last();
        let l = list_at(list, prefix)->0;
        let k = path.last() as int;
        lemma_list_at_storable(list, prefix);
        let done = l.update(k, completed(l[k]));
        let gone = l.remove(k);
        if prefix.len() == 0 {
            assert(storable(l[k]));
            assert forall|i: int| 0 <= i < done.len() implies storable(#[trigger] done[i]) by {
                if i != k {
                    assert(done[i] == l[i]);
                }
            }
            assert forall|i: int| 0 <= i < gone.len() implies storable(#[trigger] gone[i]) by {
                if i < k {
                    assert(gone[i] == l[i]);
                } else {
                    assert(gone[i] == l[i + 1]);
                }
            }
        } else {
            assert(storable_child(l[k]));
            assert forall|i: int| 0 <= i < done.len() implies storable_child(#[trigger] done[i]) by {
                if i != k {
                    assert(done[i] == l[i]);
                }
            }
            assert forall|i: int| 0 <= i < gone.len() implies storable_child(#[trigger] gone[i]) by {
                if i < k {
                    assert(gone[i] == l[i]);
                } else {
                    assert(gone[i] == l[i + 1]);
                }
            }
        }
        lemma_replace_keeps_storable(list, prefix, done);
        lemma_replace_keeps_storable(list, prefix, gone);
    }
}

} // verus!
