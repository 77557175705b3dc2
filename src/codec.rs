//! The stored form of a todo: the serializer's grammar as spec functions,
//! the tokenizer, and the recursive-descent parser that reads a line back.

use crate::error::WhatodoError;
use crate::todo::{list_model, Todo, TodoModel};
use vstd::prelude::*;
use vstd::std_specs::iter::IteratorSpec;

verus! {

/// A character that the storage grammar gives a meaning of its own.
pub open spec fn is_reserved(c: char) -> bool {
    c == '|' || c == '[' || c == ']' || c == '%' || c == '\n'
}

/// A text free of reserved characters.
pub open spec fn plain_text(s: Seq<char>) -> bool {
    forall|i: int| 0 <= i < s.len() ==> !is_reserved(#[trigger] s[i])
}

/// Contents that storage keeps exactly at any depth: not empty, and free of
/// reserved characters.
pub open spec fn storable_text(s: Seq<char>) -> bool {
    s.len() > 0 && plain_text(s)
}

/// The flag field of a stored todo: `1` when complete, `0` when not.
pub open spec fn flag_text(complete: bool) -> Seq<char> {
    if complete {
        seq!['1']
    } else {
        seq!['0']
    }
}

/// The stored text of a todo: `<flag>|<contents>|`, then `[<children>]`
/// when it has sub-todos.
pub open spec fn encode(m: TodoModel) -> Seq<char>
    decreases m,
{
    let head = flag_text(m.complete) + seq!['|'] + m.contents + seq!['|'];
    if m.sub_todos.len() == 0 {
        head
    } else {
        head + seq!['['] + encode_children(m.sub_todos) + seq![']']
    }
}

/// The stored texts of sibling todos, separated by `%`.
pub open spec fn encode_children(s: Seq<TodoModel>) -> Seq<char>
    decreases s,
{
    if s.len() == 0 {
        Seq::empty()
    } else if s.len() == 1 {
        encode(s[0])
    } else {
        encode(s[0]) + seq!['%'] + encode_children(s.drop_first())
    }
}

/// Appending one more sibling appends a separator (after the first) and its text.
pub(crate) proof fn lemma_encode_children_snoc(s: Seq<TodoModel>, i: int)
    requires
        0 <= i < s.len(),
    ensures
        encode_children(s.take(i + 1)) == encode_children(s.take(i)) + (if i > 0 {
            seq!['%']
        } else {
            Seq::empty()
        }) + encode(s[i]),
    decreases i,
{
    if i == 0 {
        assert(s.take(1) =~= seq![s[0]]);
        assert(s.take(0) =~= Seq::<TodoModel>::empty());
    } else {
        let t = s.drop_first();
        lemma_encode_children_snoc(t, i - 1);
        assert(s.take(i + 1).drop_first() =~= t.take(i));
        assert(s.take(i + 1)[0] == s[0]);
        if i == 1 {
            assert(s.take(1) =~= seq![s[0]]);
            assert(t.take(0) =~= Seq::<TodoModel>::empty());
        } else {
            assert(s.take(i).drop_first() =~= t.take(i - 1));
            assert(s.take(i)[0] == s[0]);
        }
    }
}

/// A token of a stored line, as plain values.
pub enum TokenModel {
    FieldSeparator,
    TodoArrBeg,
    TodoArrEnd,
    TodoSeparator,
    TodoValue(Seq<char>),
}

/// A token of a stored line: `|`, `[`, `]`, `%`, or a run of text.
#[derive(Debug)]
pub enum TodoTokens {
    FieldSeparator,
    TodoArrBeg,
    TodoArrEnd,
    TodoSeparator,
    TodoValue(String),
}

impl View for TodoTokens {
    type V = TokenModel;

    open spec fn view(&self) -> TokenModel {
        match self {
            TodoTokens::FieldSeparator => TokenModel::FieldSeparator,
            TodoTokens::TodoArrBeg => TokenModel::TodoArrBeg,
            TodoTokens::TodoArrEnd => TokenModel::TodoArrEnd,
            TodoTokens::TodoSeparator => TokenModel::TodoSeparator,
            TodoTokens::TodoValue(v) => TokenModel::TodoValue(v@),
        }
    }
}

/// The models of a sequence of tokens.
pub open spec fn tokens_model(s: Seq<TodoTokens>) -> Seq<TokenModel> {
    s.map_values(|t: TodoTokens| t@)
}

/// How many characters precede the first `|` (all of them when there is none).
pub open spec fn field_len(s: Seq<char>) -> nat
    decreases s.len(),
{
    if s.len() == 0 || s[0] == '|' {
        0
    } else {
        1 + field_len(s.drop_first())
    }
}

/// What follows a field of `k` characters and the `|` that ends it.
pub open spec fn after_field(s: Seq<char>, k: nat) -> Seq<char> {
    if k < s.len() {
        s.skip(k as int + 1)
    } else {
        Seq::empty()
    }
}

/// The tokens of the part of a line after its flag and contents: each of
/// `|`, `[`, `]`, `%` is a token of its own; any other character starts a
/// run up to the next `|`, which gives a value and a field separator.
pub open spec fn tokenize_rest(s: Seq<char>) -> Seq<TokenModel>
    decreases s.len(),
{
    if s.len() == 0 {
        Seq::empty()
    } else if s[0] == '|' {
        seq![TokenModel::FieldSeparator] + tokenize_rest(s.drop_first())
    } else if s[0] == '[' {
        seq![TokenModel::TodoArrBeg] + tokenize_rest(s.drop_first())
    } else if s[0] == ']' {
        seq![TokenModel::TodoArrEnd] + tokenize_rest(s.drop_first())
    } else if s[0] == '%' {
        seq![TokenModel::TodoSeparator] + tokenize_rest(s.drop_first())
    } else {
        let k = field_len(s);
        seq![TokenModel::TodoValue(s.take(k as int)), TokenModel::FieldSeparator] + tokenize_rest(
            after_field(s, k),
        )
    }
}

/// The tokens of a stored line: the flag and the contents are read as raw
/// runs up to the next `|` whatever they hold, each followed by a field
/// separator; the rest goes by `tokenize_rest`.
pub open spec fn tokenize(s: Seq<char>) -> Seq<TokenModel> {
    let k1 = field_len(s);
    let r1 = after_field(s, k1);
    let k2 = field_len(r1);
    let r2 = after_field(r1, k2);
    seq![
        TokenModel::TodoValue(s.take(k1 as int)),
        TokenModel::FieldSeparator,
        TokenModel::TodoValue(r1.take(k2 as int)),
        TokenModel::FieldSeparator,
    ] + tokenize_rest(r2)
}

/// A field of `k` characters free of `|`, ended by `|` or by the end of the text.
pub(crate) proof fn lemma_field_len(s: Seq<char>, k: int)
    requires
        0 <= k <= s.len(),
        forall|i: int| 0 <= i < k ==> s[i] != '|',
        k == s.len() || s[k] == '|',
    ensures
        field_len(s) == k,
    decreases k,
{
    if k > 0 {
        lemma_field_len(s.drop_first(), k - 1);
    }
}

/// The characters of a text, in order.
pub(crate) fn char_vec(s: &str) -> (r: Vec<char>)
    ensures
        r@ == s@,
{
    let mut it = s.chars();
    let mut r: Vec<char> = Vec::new();
    proof {
        broadcast use vstd::string::group_string_axioms;
    }
    loop
        invariant
            r@ + it.remaining() == s@,
            it.decrease() is Some,
        decreases it.decrease()->0,
    {
        let ghost before = it.remaining();
        match it.next() {
            Some(c) => {
                r.push(c);
                assert(r@ + it.remaining() =~= s@);
            }
            None => {
                assert(r@ =~= s@);
                return r;
            }
        }
    }
}

/// Where the field that starts at `from` ends: the index of the next `|`, or
/// the length when there is none.
fn field_end(chars: &Vec<char>, from: usize) -> (j: usize)
    requires
        from <= chars@.len(),
    ensures
        from <= j <= chars@.len(),
        j - from == field_len(chars@.skip(from as int)),
{
    let mut j = from;
    while j < chars.len() && chars[j] != '|'
        invariant
            from <= j <= chars@.len(),
            forall|k: int| from <= k < j ==> chars@[k] != '|',
        decreases chars@.len() - j,
    {
        j = j + 1;
    }
    proof {
        lemma_field_len(chars@.skip(from as int), j - from);
    }
    j
}

/// A value token holding the characters `from..to` of `text`.
fn value_token(text: &str, from: usize, to: usize) -> (r: TodoTokens)
    requires
        from <= to <= text@.len(),
    ensures
        r@ == TokenModel::TodoValue(text@.subrange(from as int, to as int)),
{
    TodoTokens::TodoValue(String::from_str(text.substring_char(from, to)))
}

/// Splits a stored line into tokens (see `tokenize`).
pub fn tokenize_todo_string(todo_str: &String) -> (r: Vec<TodoTokens>)
    ensures
        tokens_model(r@) == tokenize(todo_str@),
{
    let text = todo_str.as_str();
    let chars = char_vec(text);
    let n = chars.len();
    let ghost s = todo_str@;
    let mut tokens: Vec<TodoTokens> = Vec::new();
    let j1 = field_end(&chars, 0);
    tokens.push(value_token(text, 0, j1));
    tokens.push(TodoTokens::FieldSeparator);
    let i1 = if j1 < n {
        j1 + 1
    } else {
        n
    };
    let j2 = field_end(&chars, i1);
    tokens.push(value_token(text, i1, j2));
    tokens.push(TodoTokens::FieldSeparator);
    let mut i = if j2 < n {
        j2 + 1
    } else {
        n
    };
    proof {
        let k1 = field_len(s);
        assert(s.skip(0) =~= s);
        assert(after_field(s, k1) =~= s.skip(i1 as int));
        let r1 = after_field(s, k1);
        assert(r1.take((j2 - i1) as int) =~= s.subrange(i1 as int, j2 as int));
        assert(after_field(r1, field_len(r1)) =~= s.skip(i as int));
        assert(tokens_model(tokens@) =~= seq![
            TokenModel::TodoValue(s.take(k1 as int)),
            TokenModel::FieldSeparator,
            TokenModel::TodoValue(r1.take(field_len(r1) as int)),
            TokenModel::FieldSeparator,
        ]);
    }
    while i < n
        invariant
            i <= n,
            n == s.len(),
            chars@ == s,
            text@ == s,
            tokens_model(tokens@) + tokenize_rest(s.skip(i as int)) == tokenize(s),
        decreases n - i,
    {
        let ghost t = s.skip(i as int);
        let ghost i0 = i;
        let ghost before = tokens_model(tokens@);
        let c = chars[i];
        if c == '|' || c == '[' || c == ']' || c == '%' {
            if c == '|' {
                tokens.push(TodoTokens::FieldSeparator);
            } else if c == '[' {
                tokens.push(TodoTokens::TodoArrBeg);
            } else if c == ']' {
                tokens.push(TodoTokens::TodoArrEnd);
            } else {
                tokens.push(TodoTokens::TodoSeparator);
            }
            i = i + 1;
            proof {
                assert(t.drop_first() =~= s.skip(i as int));
                assert(tokens_model(tokens@) =~= before + seq![tokens@.last()@]);
                assert(tokens_model(tokens@) + tokenize_rest(s.skip(i as int)) =~= before
                    + tokenize_rest(t));
            }
        } else {
            let j = field_end(&chars, i);
            tokens.push(value_token(text, i, j));
            tokens.push(TodoTokens::FieldSeparator);
            i = if j < n {
                j + 1
            } else {
                n
            };
            proof {
                let k = field_len(t);
                assert(after_field(t, k) =~= s.skip(i as int));
                assert(t.take(k as int) =~= s.subrange(i0 as int, j as int));
                assert(tokens_model(tokens@) =~= before + seq![
                    TokenModel::TodoValue(t.take(k as int)),
                    TokenModel::FieldSeparator,
                ]);
                assert(tokens_model(tokens@) + tokenize_rest(s.skip(i as int)) =~= before
                    + tokenize_rest(t));
            }
        }
    }
    proof {
        assert(s.skip(n as int) =~= Seq::<char>::empty());
        assert(tokens_model(tokens@) + tokenize_rest(s.skip(n as int)) =~= tokens_model(tokens@));
    }
    tokens
}

/// The completion state that a flag field stands for: `1` or `0`, nothing else.
pub open spec fn flag_value(v: Seq<char>) -> Option<bool> {
    if v == seq!['1'] {
        Some(true)
    } else if v == seq!['0'] {
        Some(false)
    } else {
        None
    }
}

/// The todo whose tokens start at `pos`, with the position just after them.
/// A todo is `value | value |`, where the first value is a flag; when a `[`
/// follows, its sub-todos follow that, up to the matching `]`.
pub open spec fn parse_todo(toks: Seq<TokenModel>, pos: int) -> Option<(TodoModel, int)>
    decreases toks.len() - pos, 0int,
{
    if pos < 0 || pos + 4 > toks.len() {
        None
    } else if !(toks[pos] is TodoValue && toks[pos + 1] is FieldSeparator && toks[pos
        + 2] is TodoValue && toks[pos + 3] is FieldSeparator) {
        None
    } else {
        match flag_value(toks[pos]->TodoValue_0) {
            None => None,
            Some(complete) => {
                let contents = toks[pos + 2]->TodoValue_0;
                if pos + 4 < toks.len() && toks[pos + 4] is TodoArrBeg {
                    match parse_siblings(toks, pos + 5) {
                        None => None,
                        Some((subs, end)) => Some(
                            (TodoModel { complete, contents, sub_todos: subs }, end),
                        ),
                    }
                } else {
                    Some((TodoModel { complete, contents, sub_todos: Seq::empty() }, pos + 4))
                }
            },
        }
    }
}

/// The sibling todos that start at `pos`, separated by `%` and closed by `]`,
/// with the position just after the `]`. (A todo always ends after its start,
/// so the `pos < end` test never fails; it shows that the recursion ends.)
pub open spec fn parse_siblings(toks: Seq<TokenModel>, pos: int) -> Option<(Seq<TodoModel>, int)>
    decreases toks.len() - pos, 1int,
{
    if pos < 0 || pos > toks.len() {
        None
    } else {
        match parse_todo(toks, pos) {
            None => None,
            Some((t, end)) => {
                if pos < end < toks.len() && toks[end] is TodoArrEnd {
                    Some((seq![t], end + 1))
                } else if pos < end < toks.len() && toks[end] is TodoSeparator {
                    match parse_siblings(toks, end + 1) {
                        None => None,
                        Some((rest, e)) => Some((seq![t] + rest, e)),
                    }
                } else {
                    None
                }
            },
        }
    }
}

/// The todo that a whole token sequence stands for, if any.
pub open spec fn parse_tokens(toks: Seq<TokenModel>) -> Option<TodoModel> {
    match parse_todo(toks, 0) {
        Some((t, end)) => if end == toks.len() {
            Some(t)
        } else {
            None
        },
        None => None,
    }
}

/// The todo that a stored line stands for, if any.
pub open spec fn parse_line(s: Seq<char>) -> Option<TodoModel> {
    parse_tokens(tokenize(s))
}

/// `r` is the executable form of the parse result `p`.
spec fn same_parse<T: View, U>(r: Option<(T, usize)>, p: Option<(U, int)>) -> bool
    where T: View<V = U>
{
    match (r, p) {
        (None, None) => true,
        (Some((t, e)), Some((m, e2))) => t@ == m && e == e2,
        _ => false,
    }
}

/// `acc` put in front of the siblings that `r` found.
spec fn with_prefix(acc: Seq<TodoModel>, r: Option<(Seq<TodoModel>, int)>) -> Option<
    (Seq<TodoModel>, int),
> {
    match r {
        Some((ts, e)) => Some((acc + ts, e)),
        None => None,
    }
}

/// The completion state that a flag field stands for.
fn flag_of(v: &String) -> (r: Option<bool>)
    ensures
        r == flag_value(v@),
{
    let text = v.as_str();
    if text.unicode_len() != 1 {
        return None;
    }
    let c = text.get_char(0);
    if c == '1' {
        assert(v@ =~= seq!['1']);
        Some(true)
    } else if c == '0' {
        assert(v@ =~= seq!['0']);
        Some(false)
    } else {
        None
    }
}

/// The text of a value token.
fn value_text(t: &TodoTokens) -> (r: Option<String>)
    ensures
        t@ is TodoValue <==> r is Some,
        r is Some ==> r->0@ == t@->TodoValue_0,
{
    match t {
        TodoTokens::TodoValue(v) => Some(v.clone()),
        _ => None,
    }
}

/// Parses the todo whose tokens start at `pos` (see `parse_todo`).
fn parse_todo_at(tokens: &Vec<TodoTokens>, pos: usize) -> (r: Option<(Todo, usize)>)
    requires
        pos <= tokens@.len(),
    ensures
        same_parse(r, parse_todo(tokens_model(tokens@), pos as int)),
        r matches Some((_, e)) ==> pos < e <= tokens@.len(),
    decreases tokens@.len() - pos, 0usize,
{
    let ghost toks = tokens_model(tokens@);
    let n = tokens.len();
    if n - pos < 4 {
        return None;
    }
    let flag = value_text(&tokens[pos]);
    let contents = value_text(&tokens[pos + 2]);
    let seps = matches!(tokens[pos + 1], TodoTokens::FieldSeparator) && matches!(tokens[pos + 3], TodoTokens::FieldSeparator);
    assert(toks[pos as int] == tokens@[pos as int]@);
    assert(toks[pos + 1] == tokens@[pos + 1]@);
    assert(toks[pos + 2] == tokens@[pos + 2]@);
    assert(toks[pos + 3] == tokens@[pos + 3]@);
    match (flag, contents) {
        (Some(f), Some(contents)) => {
            if !seps {
                return None;
            }
            let complete = match flag_of(&f) {
                Some(b) => b,
                None => {
                    return None;
                },
            };
            if pos + 4 < n && matches!(tokens[pos + 4], TodoTokens::TodoArrBeg) {
                assert(toks[pos + 4] == tokens@[pos + 4]@);
                match parse_siblings_at(tokens, pos + 5) {
                    Some((subs, end)) => Some((Todo { complete, contents, sub_todos: subs }, end)),
                    None => None,
                }
            } else {
                proof {
                    if pos + 4 < n {
                        assert(toks[pos + 4] == tokens@[pos + 4]@);
                    }
                }
                let leaf = Todo { complete, contents, sub_todos: Vec::new() };
                assert(leaf.sub_todos@.len() == 0);
                assert(list_model(leaf.sub_todos@) =~= Seq::<TodoModel>::empty());
                Some((leaf, pos + 4))
            }
        },
        _ => None,
    }
}

/// Parses the siblings that start at `pos`, up to and including the closing
/// `]` (see `parse_siblings`).
fn parse_siblings_at(tokens: &Vec<TodoTokens>, pos: usize) -> (r: Option<(Vec<Todo>, usize)>)
    requires
        pos <= tokens@.len(),
    ensures
        match (r, parse_siblings(tokens_model(tokens@), pos as int)) {
            (None, None) => true,
            (Some((ts, e)), Some((ms, e2))) => list_model(ts@) == ms && e == e2,
            _ => false,
        },
        r matches Some((_, e)) ==> pos < e <= tokens@.len(),
    decreases tokens@.len() - pos, 1usize,
{
    let ghost toks = tokens_model(tokens@);
    let n = tokens.len();
    let mut out: Vec<Todo> = Vec::new();
    let mut cur = pos;
    proof {
        assert(list_model(out@) =~= Seq::<TodoModel>::empty());
        assert(with_prefix(Seq::empty(), parse_siblings(toks, pos as int)) =~= parse_siblings(
            toks,
            pos as int,
        )) by {
            match parse_siblings(toks, pos as int) {
                Some((ts, e)) => {
                    assert(Seq::<TodoModel>::empty() + ts =~= ts);
                },
                None => {},
            }
        }
    }
    loop
        invariant
            pos <= cur <= n,
            n == tokens@.len(),
            toks == tokens_model(tokens@),
            with_prefix(list_model(out@), parse_siblings(toks, cur as int)) == parse_siblings(
                toks,
                pos as int,
            ),
        decreases n - cur,
    {
        match parse_todo_at(tokens, cur) {
            None => {
                return None;
            },
            Some((t, end)) => {
                if end >= n {
                    return None;
                }
                assert(toks[end as int] == tokens@[end as int]@);
                let ghost acc = list_model(out@);
                let ghost tm = t@;
                let ghost old_out = out@;
                let close = matches!(tokens[end], TodoTokens::TodoArrEnd);
                let sep = matches!(tokens[end], TodoTokens::TodoSeparator);
                if !close && !sep {
                    return None;
                }
                out.push(t);
                proof {
                    assert(list_model(out@) == acc.push(tm)) by {
                        assert(out@.drop_last() =~= old_out);
                    }
                }
                if close {
                    proof {
                        assert(acc + seq![tm] =~= acc.push(tm));
                    }
                    return Some((out, end + 1));
                }
                proof {
                    match parse_siblings(toks, end + 1) {
                        Some((rest, e)) => {
                            assert(acc + (seq![tm] + rest) =~= acc.push(tm) + rest);
                        },
                        None => {},
                    }
                }
                cur = end + 1;
            },
        }
    }
}

/// Builds the todo that a whole token sequence stands for; a sequence that
/// follows no todo's shape, or holds a flag other than `0` or `1`, is malformed.
pub fn todo_from_tokens(tokens: Vec<TodoTokens>) -> (r: Result<Todo, WhatodoError>)
    ensures
        match parse_tokens(tokens_model(tokens@)) {
            Some(m) => r matches Ok(t) && t@ == m,
            None => r == Err::<Todo, WhatodoError>(WhatodoError::MalformedTodo),
        },
{
    match parse_todo_at(&tokens, 0) {
        Some((t, end)) => {
            if end == tokens.len() {
                Ok(t)
            } else {
                Err(WhatodoError::MalformedTodo)
            }
        },
        None => Err(WhatodoError::MalformedTodo),
    }
}

/// Reads one stored line back into a todo.
pub fn from_todo_string(todo_str: String) -> (r: Result<Todo, WhatodoError>)
    ensures
        match parse_line(todo_str@) {
            Some(m) => r matches Ok(t) && t@ == m,
            None => r == Err::<Todo, WhatodoError>(WhatodoError::MalformedTodo),
        },
{
    let raw_tokens = tokenize_todo_string(&todo_str);
    todo_from_tokens(raw_tokens)
}

/// Whether storage keeps these contents exactly (see `storable_text`).
pub fn is_storable_text(s: &str) -> (r: bool)
    ensures
        r == storable_text(s@),
{
    let chars = char_vec(s);
    if chars.len() == 0 {
        return false;
    }
    let mut i: usize = 0;
    while i < chars.len()
        invariant
            i <= chars@.len(),
            chars@ == s@,
            forall|k: int| 0 <= k < i ==> !is_reserved(#[trigger] chars@[k]),
        decreases chars@.len() - i,
    {
        let c = chars[i];
        if c == '|' || c == '[' || c == ']' || c == '%' || c == '\n' {
            assert(is_reserved(s@[i as int]));
            return false;
        }
        i = i + 1;
    }
    true
}

} // verus!
