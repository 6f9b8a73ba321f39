//! Attribute values: unwrapping quotes, splitting at top-level separators,
//! and laying a value out over several lines.
use vstd::prelude::*;
use crate::text::{
    ends_with, ends_with_chars, lit1, lit2, repeat, slice_chars, starts_with, starts_with_chars, trim, trimmed,
    utf8_len, utf8_len_exceeds,
};

verus! {

/// The views of a sequence of character vectors.
pub open spec fn views(v: Seq<Vec<char>>) -> Seq<Seq<char>> {
    v.map_values(|x: Vec<char>| x@)
}

pub open spec fn is_open_bracket(c: char) -> bool {
    c == '(' || c == '{' || c == '['
}

pub open spec fn is_close_bracket(c: char) -> bool {
    c == ')' || c == '}' || c == ']'
}

/// The bracket depth after reading `c` at depth `depth`; a closing bracket
/// at depth zero leaves the depth at zero.
pub open spec fn next_depth(depth: nat, c: char) -> nat {
    if is_open_bracket(c) {
        depth + 1
    } else if is_close_bracket(c) {
        if depth > 0 {
            (depth - 1) as nat
        } else {
            0
        }
    } else {
        depth
    }
}

/// Whether `content[i]` separates two parts: it is one of `seps`, it is not a
/// bracket, and it stands outside all brackets.
pub open spec fn splits_at(content: Seq<char>, seps: Seq<char>, depth: nat, i: int) -> bool {
    !is_open_bracket(content[i]) && !is_close_bracket(content[i]) && depth == 0 && seps.contains(
        content[i],
    )
}

/// Splitting `content[i..]`, given the bracket depth `depth` before position `i`,
/// the start `last` of the part being read, and the parts already complete.
pub open spec fn split_from(
    content: Seq<char>,
    seps: Seq<char>,
    i: int,
    depth: nat,
    last: int,
    parts: Seq<Seq<char>>,
) -> Seq<Seq<char>>
    decreases content.len() - i,
{
    if i >= content.len() {
        parts.push(content.subrange(last, content.len() as int))
    } else if splits_at(content, seps, depth, i) {
        split_from(content, seps, i + 1, depth, i + 1, parts.push(content.subrange(last, i)))
    } else {
        split_from(content, seps, i + 1, next_depth(depth, content[i]), last, parts)
    }
}

/// The parts of `content` between the separators in `seps` that stand outside
/// `()`, `{}` and `[]`.
pub open spec fn split_top_level(content: Seq<char>, seps: Seq<char>) -> Seq<Seq<char>> {
    split_from(content, seps, 0, 0, 0, Seq::empty())
}

/// The parts that hold more than whitespace, in order.
pub open spec fn non_empty(parts: Seq<Seq<char>>) -> Seq<Seq<char>>
    decreases parts.len(),
{
    if parts.len() == 0 {
        Seq::empty()
    } else if trimmed(parts.last()).len() > 0 {
        non_empty(parts.drop_last()).push(parts.last())
    } else {
        non_empty(parts.drop_last())
    }
}

pub open spec fn statement_separators() -> Seq<char> {
    seq![';', ',']
}

pub open spec fn item_separators() -> Seq<char> {
    seq![',']
}

/// The value inside its quotes: `{"..."}`, ``{`...`}``, `"..."`, `'...'` or `` `...` ``;
/// any other value, and one whose quotes overlap (such as `"` or `{"}`), is
/// its own inside.
pub open spec fn unwrap_value(v: Seq<char>) -> Seq<char> {
    if quotes_overlap(v) {
        v
    } else if starts_with(v, seq!['{', '"']) && ends_with(v, seq!['"', '}']) {
        v.subrange(2, v.len() - 2)
    } else if starts_with(v, seq!['{', '`']) && ends_with(v, seq!['`', '}']) {
        v.subrange(2, v.len() - 2)
    } else if starts_with(v, seq!['"']) && ends_with(v, seq!['"']) {
        v.subrange(1, v.len() - 1)
    } else if starts_with(v, seq!['\'']) && ends_with(v, seq!['\'']) {
        v.subrange(1, v.len() - 1)
    } else if starts_with(v, seq!['`']) && ends_with(v, seq!['`']) {
        v.subrange(1, v.len() - 1)
    } else {
        v
    }
}

/// The values on which the quotes overlap, such as `"` or `{"}`: their inside
/// is not defined.
pub open spec fn quotes_overlap(v: Seq<char>) -> bool {
    if starts_with(v, seq!['{', '"']) && ends_with(v, seq!['"', '}']) {
        v.len() < 4
    } else if starts_with(v, seq!['{', '`']) && ends_with(v, seq!['`', '}']) {
        v.len() < 4
    } else if starts_with(v, seq!['"']) && ends_with(v, seq!['"']) {
        v.len() < 2
    } else if starts_with(v, seq!['\'']) && ends_with(v, seq!['\'']) {
        v.len() < 2
    } else if starts_with(v, seq!['`']) && ends_with(v, seq!['`']) {
        v.len() < 2
    } else {
        false
    }
}

/// The opening and closing quotes of a value, chosen by how it starts.
pub open spec fn quote_wrap(t: Seq<char>) -> (Seq<char>, Seq<char>) {
    if starts_with(t, seq!['{', '`']) {
        (seq!['{', '`'], seq!['`', '}'])
    } else if starts_with(t, seq!['`']) {
        (seq!['`'], seq!['`'])
    } else if starts_with(t, seq!['{', '"']) {
        (seq!['{', '"'], seq!['"', '}'])
    } else if starts_with(t, seq!['"']) {
        (seq!['"'], seq!['"'])
    } else if starts_with(t, seq!['\'']) {
        (seq!['\''], seq!['\''])
    } else {
        (Seq::empty(), Seq::empty())
    }
}

/// Whether a quoted value holds an object literal `{...}` (first) or an
/// array literal `[...]` (second).
pub open spec fn classify_inner(t: Seq<char>, inner: Seq<char>) -> (bool, bool) {
    let wrapped = starts_with(t, seq!['"']) || starts_with(t, seq!['\'']) || starts_with(
        t,
        seq!['{', '"'],
    ) || starts_with(t, seq!['{', '`']) || starts_with(t, seq!['`']);
    (
        wrapped && starts_with(inner, seq!['{']) && ends_with(inner, seq!['}']),
        wrapped && starts_with(inner, seq!['[']) && ends_with(inner, seq![']']),
    )
}

/// Whether a value has to be laid out over several lines: it is longer than
/// the line width, or it holds more than one statement.
pub open spec fn value_needs_split(value: Option<Seq<char>>, line_width: nat) -> bool {
    match value {
        None => false,
        Some(v) => {
            let t = trimmed(v);
            utf8_len(t) > line_width || non_empty(
                split_top_level(trimmed(unwrap_value(t)), statement_separators()),
            ).len() > 1
        },
    }
}

/// A line break followed by `depth` indents.
pub open spec fn newline_text(indent: Seq<char>, depth: nat) -> Seq<char> {
    seq!['\n'] + repeat(indent, depth)
}

/// Each item on a line of its own at `depth`, trimmed and followed by `term`.
pub open spec fn item_lines(items: Seq<Seq<char>>, indent: Seq<char>, depth: nat, term: char) -> Seq<
    char,
>
    decreases items.len(),
{
    if items.len() == 0 {
        Seq::empty()
    } else {
        item_lines(items.drop_last(), indent, depth, term) + newline_text(indent, depth) + trimmed(
            items.last(),
        ) + seq![term]
    }
}

/// The layout of an attribute value whose attribute stands at `depth`.
/// An object or array literal in quotes gets one item per line, each followed
/// by `,`; any other value gets one statement per line, each followed by `;`.
/// A value that has at most one part and fits in the line width is kept as it
/// is, trimmed.
pub open spec fn formatted_value(value: Seq<char>, indent: Seq<char>, depth: nat, line_width: nat) -> Seq<
    char,
> {
    let t = trimmed(value);
    let inner = trimmed(unwrap_value(t));
    let (is_obj, is_arr) = classify_inner(t, inner);
    let (open, close) = quote_wrap(t);
    if is_obj || is_arr {
        let items = non_empty(
            split_top_level(inner.subrange(1, inner.len() - 1), item_separators()),
        );
        if items.len() <= 1 && utf8_len(t) <= line_width {
            t
        } else {
            open + (if is_obj {
                seq!['{']
            } else {
                seq!['[']
            }) + item_lines(items, indent, depth + 1, ',') + newline_text(indent, depth) + (
            if is_obj {
                seq!['}']
            } else {
                seq![']']
            }) + close
        }
    } else {
        let parts = non_empty(split_top_level(inner, statement_separators()));
        if parts.len() <= 1 && utf8_len(t) <= line_width {
            t
        } else {
            open + item_lines(parts, indent, depth + 1, ';') + newline_text(indent, depth) + close
        }
    }
}

fn is_open_bracket_char(c: char) -> (r: bool)
    ensures
        r == is_open_bracket(c),
{
    c == '(' || c == '{' || c == '['
}

fn is_close_bracket_char(c: char) -> (r: bool)
    ensures
        r == is_close_bracket(c),
{
    c == ')' || c == '}' || c == ']'
}

fn contains_char(s: &Vec<char>, c: char) -> (r: bool)
    ensures
        r == s@.contains(c),
{
    let mut i: usize = 0;
    while i < s.len()
        invariant
            i <= s.len(),
            forall|j: int| 0 <= j < i ==> s@[j] != c,
        decreases s.len() - i,
    {
        if s[i] == c {
            assert(s@[i as int] == c);
            return true;
        }
        i = i + 1;
    }
    false
}

/// The parts of `content` between the separators in `seps` that stand outside
/// brackets.
pub fn split_top_level_parts(content: &Vec<char>, seps: &Vec<char>) -> (parts: Vec<Vec<char>>)
    ensures
        views(parts@) == split_top_level(content@, seps@),
{
    let mut parts: Vec<Vec<char>> = Vec::new();
    let mut depth: usize = 0;
    let mut last: usize = 0;
    let mut i: usize = 0;
    assert(views(parts@) =~= Seq::<Seq<char>>::empty());
    while i < content.len()
        invariant
            last <= i <= content.len(),
            depth <= i,
            split_top_level(content@, seps@) == split_from(
                content@,
                seps@,
                i as int,
                depth as nat,
                last as int,
                views(parts@),
            ),
        decreases content.len() - i,
    {
        let c = content[i];
        if !is_open_bracket_char(c) && !is_close_bracket_char(c) && depth == 0 && contains_char(
            seps,
            c,
        ) {
            let piece = slice_chars(content, last, i);
            let ghost before = views(parts@);
            parts.push(piece);
            assert(views(parts@) =~= before.push(content@.subrange(last as int, i as int)));
            last = i + 1;
        } else if is_open_bracket_char(c) {
            depth = depth + 1;
        } else if is_close_bracket_char(c) {
            if depth > 0 {
                depth = depth - 1;
            }
        }
        i = i + 1;
    }
    let piece = slice_chars(content, last, content.len());
    let ghost before = views(parts@);
    parts.push(piece);
    assert(views(parts@) =~= before.push(content@.subrange(last as int, content@.len() as int)));
    parts
}

/// The parts that hold more than whitespace.
pub fn non_empty_parts(parts: Vec<Vec<char>>) -> (r: Vec<Vec<char>>)
    ensures
        views(r@) == non_empty(views(parts@)),
{
    let mut r: Vec<Vec<char>> = Vec::new();
    let mut i: usize = 0;
    assert(views(r@) =~= non_empty(views(parts@).take(0)));
    while i < parts.len()
        invariant
            i <= parts.len(),
            views(r@) == non_empty(views(parts@).take(i as int)),
        decreases parts.len() - i,
    {
        let ghost before = views(r@);
        assert(views(parts@).take(i + 1).drop_last() =~= views(parts@).take(i as int));
        assert(views(parts@).take(i + 1).last() == parts@[i as int]@);
        let t = trim(&parts[i]);
        if t.len() > 0 {
            r.push(parts[i].clone());
            assert(views(r@) =~= before.push(parts@[i as int]@));
        }
        i = i + 1;
    }
    assert(views(parts@).take(parts.len() as int) =~= views(parts@));
    r
}

/// The inside of a value.
pub fn unwrap_value_chars(v: &Vec<char>) -> (r: Vec<char>)
    ensures
        r@ == unwrap_value(v@),
{
    let n = v.len();
    if quotes_overlap_chars(v) {
        v.clone()
    } else if starts_with_chars(v, &lit2('{', '"')) && ends_with_chars(v, &lit2('"', '}')) {
        slice_chars(v, 2, n - 2)
    } else if starts_with_chars(v, &lit2('{', '`')) && ends_with_chars(v, &lit2('`', '}')) {
        slice_chars(v, 2, n - 2)
    } else if starts_with_chars(v, &lit1('"')) && ends_with_chars(v, &lit1('"')) {
        slice_chars(v, 1, n - 1)
    } else if starts_with_chars(v, &lit1('\'')) && ends_with_chars(v, &lit1('\'')) {
        slice_chars(v, 1, n - 1)
    } else if starts_with_chars(v, &lit1('`')) && ends_with_chars(v, &lit1('`')) {
        slice_chars(v, 1, n - 1)
    } else {
        v.clone()
    }
}

/// Whether the quotes of `v` overlap.
pub fn quotes_overlap_chars(v: &Vec<char>) -> (r: bool)
    ensures
        r == quotes_overlap(v@),
{
    let n = v.len();
    if starts_with_chars(v, &lit2('{', '"')) && ends_with_chars(v, &lit2('"', '}')) {
        n < 4
    } else if starts_with_chars(v, &lit2('{', '`')) && ends_with_chars(v, &lit2('`', '}')) {
        n < 4
    } else if starts_with_chars(v, &lit1('"')) && ends_with_chars(v, &lit1('"')) {
        n < 2
    } else if starts_with_chars(v, &lit1('\'')) && ends_with_chars(v, &lit1('\'')) {
        n < 2
    } else if starts_with_chars(v, &lit1('`')) && ends_with_chars(v, &lit1('`')) {
        n < 2
    } else {
        false
    }
}

pub fn quote_wrap_chars(t: &Vec<char>) -> (r: (Vec<char>, Vec<char>))
    ensures
        (r.0@, r.1@) == quote_wrap(t@),
{
    if starts_with_chars(t, &lit2('{', '`')) {
        (lit2('{', '`'), lit2('`', '}'))
    } else if starts_with_chars(t, &lit1('`')) {
        (lit1('`'), lit1('`'))
    } else if starts_with_chars(t, &lit2('{', '"')) {
        (lit2('{', '"'), lit2('"', '}'))
    } else if starts_with_chars(t, &lit1('"')) {
        (lit1('"'), lit1('"'))
    } else if starts_with_chars(t, &lit1('\'')) {
        (lit1('\''), lit1('\''))
    } else {
        (Vec::new(), Vec::new())
    }
}

pub fn classify_inner_chars(t: &Vec<char>, inner: &Vec<char>) -> (r: (bool, bool))
    ensures
        r == classify_inner(t@, inner@),
{
    let wrapped = starts_with_chars(t, &lit1('"')) || starts_with_chars(t, &lit1('\''))
        || starts_with_chars(t, &lit2('{', '"')) || starts_with_chars(t, &lit2('{', '`'))
        || starts_with_chars(t, &lit1('`'));
    let is_obj = wrapped && starts_with_chars(inner, &lit1('{')) && ends_with_chars(
        inner,
        &lit1('}'),
    );
    let is_arr = wrapped && starts_with_chars(inner, &lit1('[')) && ends_with_chars(
        inner,
        &lit1(']'),
    );
    (is_obj, is_arr)
}

pub fn value_needs_split_chars(value: &Option<Vec<char>>, line_width: usize) -> (r: bool)
    ensures
        r == value_needs_split(
            match value {
                Some(v) => Some(v@),
                None => None,
            },
            line_width as nat,
        ),
{
    match value {
        None => false,
        Some(v) => {
            let t = trim(v);
            if utf8_len_exceeds(&t, line_width) {
                return true;
            }
            let inner = trim(&unwrap_value_chars(&t));
            non_empty_parts(split_top_level_parts(&inner, &lit2(';', ','))).len() > 1
        },
    }
}

} // verus!
