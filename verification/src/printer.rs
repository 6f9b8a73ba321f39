//! The printer that lays out a reformatted tag, and the layout of values.
use vstd::prelude::*;
use crate::syntax::{char_index_of_bytes, spans_from_table, syntax_tree, NodeKind, SyntaxNode};
use crate::tags::{format_tag, formatted_tag, is_tag_kind};
use crate::text::{
    chars_of, lit1, lit2, push_all, push_range, repeat, slice_chars, string_of, trim, trimmed,
    utf8_len, utf8_len_exceeds,
};
use crate::value::{
    classify_inner_chars, formatted_value, item_lines, item_separators, newline_text, non_empty,
    non_empty_parts, quote_wrap, quote_wrap_chars, split_top_level,
    split_top_level_parts, statement_separators, unwrap_value_chars, views,
};

verus! {

/// Accumulates the text of a reformatted tag; `indent` is the text of one
/// level of indentation.
pub struct Printer<'a> {
    indent: &'a Vec<char>,
    output: Vec<char>,
}

impl<'a> Printer<'a> {
    pub closed spec fn indent_text(&self) -> Seq<char> {
        self.indent@
    }

    /// What has been written so far.
    pub closed spec fn text(&self) -> Seq<char> {
        self.output@
    }

    /// A printer whose text starts with `depth` indents.
    pub fn new(indent: &'a Vec<char>, depth: usize) -> (p: Self)
        ensures
            p.indent_text() == indent@,
            p.text() == repeat(indent@, depth as nat),
    {
        let mut s = Printer { indent, output: Vec::new() };
        assert(s.output@ =~= repeat(indent@, 0));
        s.write_indent(depth);
        assert(s.output@ =~= repeat(indent@, depth as nat));
        s
    }

    pub fn write(&mut self, s: &Vec<char>)
        ensures
            final(self).indent_text() == old(self).indent_text(),
            final(self).text() == old(self).text() + s@,
    {
        push_all(&mut self.output, s);
    }

    /// A line break followed by `depth` indents.
    pub fn newline(&mut self, depth: usize)
        ensures
            final(self).indent_text() == old(self).indent_text(),
            final(self).text() == old(self).text() + newline_text(
                old(self).indent_text(),
                depth as nat,
            ),
    {
        self.output.push('\n');
        self.write_indent(depth);
        assert(self.output@ =~= old(self).output@ + newline_text(self.indent@, depth as nat));
    }

    fn write_indent(&mut self, depth: usize)
        ensures
            final(self).indent_text() == old(self).indent_text(),
            final(self).text() == old(self).text() + repeat(old(self).indent_text(), depth as nat),
    {
        let mut k: usize = 0;
        while k < depth
            invariant
                k <= depth,
                self.indent == old(self).indent,
                self.output@ == old(self).output@ + repeat(self.indent@, k as nat),
            decreases depth - k,
        {
            push_all(&mut self.output, self.indent);
            k = k + 1;
            assert(self.output@ =~= old(self).output@ + repeat(self.indent@, k as nat));
        }
    }

    pub fn finish(self) -> (r: Vec<char>)
        ensures
            r@ == self.text(),
    {
        self.output
    }
}

/// Writes each item on a line of its own at `depth`, trimmed and followed by `term`.
fn write_items(p: &mut Printer, items: &Vec<Vec<char>>, depth: usize, term: char)
    ensures
        final(p).indent_text() == old(p).indent_text(),
        final(p).text() == old(p).text() + item_lines(
            views(items@),
            old(p).indent_text(),
            depth as nat,
            term,
        ),
{
    let ghost indent = p.indent_text();
    let mut i: usize = 0;
    assert(views(items@).take(0) =~= Seq::<Seq<char>>::empty());
    assert(old(p).text() + item_lines(views(items@).take(0), indent, depth as nat, term)
        =~= old(p).text());
    while i < items.len()
        invariant
            i <= items.len(),
            p.indent_text() == indent,
            p.text() == old(p).text() + item_lines(
                views(items@).take(i as int),
                indent,
                depth as nat,
                term,
            ),
        decreases items.len() - i,
    {
        assert(views(items@).take(i + 1).drop_last() =~= views(items@).take(i as int));
        assert(views(items@).take(i + 1).last() == items@[i as int]@);
        p.newline(depth);
        p.write(&trim(&items[i]));
        p.write(&lit1(term));
        i = i + 1;
        assert(p.text() =~= old(p).text() + item_lines(
            views(items@).take(i as int),
            indent,
            depth as nat,
            term,
        ));
    }
    assert(views(items@).take(items.len() as int) =~= views(items@));
}

/// Writes an object or array literal with one item per line.
#[verifier::spinoff_prover]
fn format_bracketed(
    p: &mut Printer,
    t: &Vec<char>,
    inner: &Vec<char>,
    is_obj: bool,
    depth: usize,
    line_width: usize,
)
    requires
        depth < usize::MAX,
        inner@.len() >= 2,
    ensures
        final(p).indent_text() == old(p).indent_text(),
        final(p).text() == old(p).text() + ({
            let items = non_empty(
                split_top_level(inner@.subrange(1, inner@.len() - 1), item_separators()),
            );
            let (open, close) = quote_wrap(t@);
            if items.len() <= 1 && utf8_len(t@) <= line_width {
                t@
            } else {
                open + (if is_obj {
                    seq!['{']
                } else {
                    seq!['[']
                }) + item_lines(items, old(p).indent_text(), (depth + 1) as nat, ',')
                    + newline_text(old(p).indent_text(), depth as nat) + (if is_obj {
                    seq!['}']
                } else {
                    seq![']']
                }) + close
            }
        }),
{
    let (open, close) = quote_wrap_chars(t);
    let content = slice_chars(inner, 1, inner.len() - 1);
    let items = non_empty_parts(split_top_level_parts(&content, &lit1(',')));
    if items.len() <= 1 && !utf8_len_exceeds(t, line_width) {
        p.write(t);
        return ;
    }
    let ghost start = p.text();
    let ghost indent = p.indent_text();
    p.write(&open);
    p.write(
        &lit1(
            if is_obj {
                '{'
            } else {
                '['
            },
        ),
    );
    write_items(p, &items, depth + 1, ',');
    p.newline(depth);
    p.write(
        &lit1(
            if is_obj {
                '}'
            } else {
                ']'
            },
        ),
    );
    p.write(&close);
    assert(p.text() =~= start + (open@ + (if is_obj {
        seq!['{']
    } else {
        seq!['[']
    }) + item_lines(views(items@), indent, (depth + 1) as nat, ',') + newline_text(
        indent,
        depth as nat,
    ) + (if is_obj {
        seq!['}']
    } else {
        seq![']']
    }) + close@));
}

/// Writes a value with one statement per line, each followed by `;`.
#[verifier::spinoff_prover]
fn format_statements(p: &mut Printer, t: &Vec<char>, inner: &Vec<char>, depth: usize, line_width: usize)
    requires
        depth < usize::MAX,
    ensures
        final(p).indent_text() == old(p).indent_text(),
        final(p).text() == old(p).text() + ({
            let parts = non_empty(split_top_level(inner@, statement_separators()));
            let (open, close) = quote_wrap(t@);
            if parts.len() <= 1 && utf8_len(t@) <= line_width {
                t@
            } else {
                open + item_lines(parts, old(p).indent_text(), (depth + 1) as nat, ';')
                    + newline_text(old(p).indent_text(), depth as nat) + close
            }
        }),
{
    let (open, close) = quote_wrap_chars(t);
    let parts = non_empty_parts(split_top_level_parts(inner, &lit2(';', ',')));
    if parts.len() <= 1 && !utf8_len_exceeds(t, line_width) {
        p.write(t);
        return ;
    }
    let ghost start = p.text();
    let ghost indent = p.indent_text();
    p.write(&open);
    write_items(p, &parts, depth + 1, ';');
    p.newline(depth);
    p.write(&close);
    assert(p.text() =~= start + (open@ + item_lines(views(parts@), indent, (depth + 1) as nat, ';')
        + newline_text(indent, depth as nat) + close@));
}

/// Writes `value` laid out for an attribute at `depth`.
#[verifier::spinoff_prover]
pub fn format_value(p: &mut Printer, value: &Vec<char>, depth: usize, line_width: usize)
    requires
        depth < usize::MAX,
    ensures
        final(p).indent_text() == old(p).indent_text(),
        final(p).text() == old(p).text() + formatted_value(
            value@,
            old(p).indent_text(),
            depth as nat,
            line_width as nat,
        ),
{
    let trimmed_value = trim(value);
    let inner = trim(&unwrap_value_chars(&trimmed_value));
    let (is_obj, is_arr) = classify_inner_chars(&trimmed_value, &inner);
    if is_obj || is_arr {
        assert(inner@.len() >= 2) by {
            if inner@.len() < 2 {
                assert(inner@.subrange(0, 1)[0] == inner@[0]);
                assert(inner@.subrange(inner@.len() - 1, inner@.len() as int)[0] == inner@[0]);
            }
        }
        format_bracketed(p, &trimmed_value, &inner, is_obj, depth, line_width);
    } else {
        format_statements(p, &trimmed_value, &inner, depth, line_width);
    }
}

/// A replacement: the range `start..end` of the source and its new text.
pub type Replacement = (int, int, Seq<char>);

pub open spec fn reps_view(s: Seq<(usize, usize, Vec<char>)>) -> Seq<Replacement> {
    s.map_values(|r: (usize, usize, Vec<char>)| (r.0 as int, r.1 as int, r.2@))
}

/// The replacements for the tags in the tree `node`, in document order. A tag
/// is not searched for tags inside it.
pub open spec fn replacements(src: Seq<char>, node: SyntaxNode, indent: Seq<char>, line_width: nat) -> Seq<
    Replacement,
>
    decreases node, 1nat, 0int,
{
    if is_tag_kind(node.kind) {
        match formatted_tag(src, node, indent, line_width) {
            Some(r) => seq![r],
            None => Seq::empty(),
        }
    } else {
        children_replacements(src, node, indent, line_width, node.children@.len() as int)
    }
}

/// The replacements for the first `k` children of `node`.
pub open spec fn children_replacements(
    src: Seq<char>,
    node: SyntaxNode,
    indent: Seq<char>,
    line_width: nat,
    k: int,
) -> Seq<Replacement>
    decreases node, 0nat, k,
{
    if k <= 0 || k > node.children@.len() {
        Seq::empty()
    } else {
        children_replacements(src, node, indent, line_width, k - 1) + replacements(
            src,
            node.children@[k - 1],
            indent,
            line_width,
        )
    }
}

/// `src[cursor..]` with the replacements `reps[i..]` applied in order; a
/// replacement that starts before the end of the one before it is left out.
pub open spec fn splice_from(src: Seq<char>, reps: Seq<Replacement>, i: int, cursor: int) -> Seq<char>
    decreases reps.len() - i,
{
    if i < 0 || i >= reps.len() {
        src.subrange(cursor, src.len() as int)
    } else {
        let r = reps[i];
        if cursor <= r.0 && r.0 <= r.1 && r.1 <= src.len() {
            src.subrange(cursor, r.0) + r.2 + splice_from(src, reps, i + 1, r.1)
        } else {
            splice_from(src, reps, i + 1, cursor)
        }
    }
}

/// One level of indentation: `tab_width` spaces, or a tab.
pub open spec fn indent_unit(use_spaces: bool, tab_width: nat) -> Seq<char> {
    if use_spaces {
        Seq::new(tab_width, |i: int| ' ')
    } else {
        seq!['\t']
    }
}

/// The source with each tag that is split replaced by its new text.
pub open spec fn formatted_source(
    src: Seq<char>,
    root: SyntaxNode,
    line_width: nat,
    use_spaces: bool,
    tab_width: nat,
) -> Seq<char> {
    let reps = replacements(src, root, indent_unit(use_spaces, tab_width), line_width);
    if reps.len() == 0 {
        src
    } else {
        splice_from(src, reps, 0, 0)
    }
}

fn is_tag_node(node: &SyntaxNode) -> (r: bool)
    ensures
        r == is_tag_kind(node.kind),
{
    matches!(
        node.kind,
        NodeKind::StartTag | NodeKind::JsxOpeningElement | NodeKind::SelfClosingTag
            | NodeKind::JsxSelfClosingElement
    )
}

/// Appends the replacements for the tags in the tree `node`.
fn collect_replacements(
    node: &SyntaxNode,
    src: &Vec<char>,
    indent: &Vec<char>,
    line_width: usize,
    out: &mut Vec<(usize, usize, Vec<char>)>,
)
    requires
        node.wf(src@.len()),
        src@.len() + 2 <= usize::MAX,
    ensures
        reps_view(final(out)@) == reps_view(old(out)@) + replacements(
            src@,
            *node,
            indent@,
            line_width as nat,
        ),
    decreases node,
{
    if is_tag_node(node) {
        match format_tag(node, src, indent, line_width) {
            Some(r) => {
                out.push(r);
                assert(reps_view(out@) =~= reps_view(old(out)@) + replacements(
                    src@,
                    *node,
                    indent@,
                    line_width as nat,
                ));
            },
            None => {
                assert(reps_view(out@) =~= reps_view(old(out)@) + Seq::<Replacement>::empty());
            },
        }
        return ;
    }
    let mut i: usize = 0;
    assert(reps_view(out@) =~= reps_view(old(out)@) + children_replacements(
        src@,
        *node,
        indent@,
        line_width as nat,
        0,
    ));
    while i < node.children.len()
        invariant
            i <= node.children.len(),
            node.wf(src@.len()),
            src@.len() + 2 <= usize::MAX,
            reps_view(out@) == reps_view(old(out)@) + children_replacements(
                src@,
                *node,
                indent@,
                line_width as nat,
                i as int,
            ),
        decreases node.children.len() - i,
    {
        assert(node.children@[i as int].wf(src@.len()));
        let ghost before = reps_view(out@);
        collect_replacements(&node.children[i], src, indent, line_width, out);
        i = i + 1;
        assert(reps_view(out@) =~= reps_view(old(out)@) + children_replacements(
            src@,
            *node,
            indent@,
            line_width as nat,
            i as int,
        ));
    }
}

/// `src` with the replacements applied in order.
fn splice(src: &Vec<char>, reps: &Vec<(usize, usize, Vec<char>)>) -> (r: Vec<char>)
    ensures
        r@ == splice_from(src@, reps_view(reps@), 0, 0),
{
    let ghost rv = reps_view(reps@);
    let mut out: Vec<char> = Vec::new();
    let mut cursor: usize = 0;
    let mut i: usize = 0;
    assert(out@ + splice_from(src@, rv, 0, 0) =~= splice_from(src@, rv, 0, 0));
    while i < reps.len()
        invariant
            i <= reps.len(),
            cursor <= src.len(),
            rv == reps_view(reps@),
            out@ + splice_from(src@, rv, i as int, cursor as int) == splice_from(src@, rv, 0, 0),
        decreases reps.len() - i,
    {
        let r = &reps[i];
        assert(rv[i as int] == (r.0 as int, r.1 as int, r.2@));
        if cursor <= r.0 && r.0 <= r.1 && r.1 <= src.len() {
            let ghost before = out@;
            let ghost c0 = cursor as int;
            push_range(&mut out, src, cursor, r.0);
            push_all(&mut out, &r.2);
            cursor = r.1;
            assert(out@ + splice_from(src@, rv, i + 1, cursor as int) =~= before + splice_from(
                src@,
                rv,
                i as int,
                c0,
            ));
        }
        i = i + 1;
    }
    let ghost before = out@;
    push_range(&mut out, src, cursor, src.len());
    out
}

/// One level of indentation.
fn indent_text_of(use_spaces: bool, tab_width: usize) -> (r: Vec<char>)
    ensures
        r@ == indent_unit(use_spaces, tab_width as nat),
{
    if use_spaces {
        let mut r: Vec<char> = Vec::new();
        let mut k: usize = 0;
        while k < tab_width
            invariant
                k <= tab_width,
                r@ == Seq::new(k as nat, |i: int| ' '),
            decreases tab_width - k,
        {
            r.push(' ');
            k = k + 1;
            assert(r@ =~= Seq::new(k as nat, |i: int| ' '));
        }
        r
    } else {
        lit1('\t')
    }
}

/// The source with each tag of the tree `root` that is split replaced by its
/// new text; everything else is kept as it is.
pub fn format_syntax_tree(
    source: &Vec<char>,
    root: &SyntaxNode,
    line_width: usize,
    use_spaces: bool,
    tab_width: usize,
) -> (r: Vec<char>)
    requires
        root.wf(source@.len()),
        source@.len() + 2 <= usize::MAX,
    ensures
        r@ == formatted_source(source@, *root, line_width as nat, use_spaces, tab_width as nat),
{
    let indent = indent_text_of(use_spaces, tab_width);
    let mut reps: Vec<(usize, usize, Vec<char>)> = Vec::new();
    assert(reps_view(reps@) =~= Seq::<Replacement>::empty());
    collect_replacements(root, source, &indent, line_width, &mut reps);
    assert(reps_view(reps@) =~= replacements(source@, *root, indent@, line_width as nat));
    if reps.len() == 0 {
        return slice_chars(source, 0, source.len());
    }
    splice(source, &reps)
}

/// Formats `source`, whose syntax tree tree-sitter built as `tree`: each tag
/// that is split is replaced by its new text, and everything else is kept.
pub fn format_via_splicing(
    source: &str,
    tree: &tree_sitter::Tree,
    line_width: usize,
    use_spaces: bool,
    tab_width: usize,
) -> (r: String)
    ensures
        source@.len() + 2 <= usize::MAX ==> exists|root: SyntaxNode|
            root.wf(source@.len()) && spans_from_table(
                root,
                char_index_of_bytes(source@),
                source@.len(),
            ) && r@ == formatted_source(
                source@,
                root,
                line_width as nat,
                use_spaces,
                tab_width as nat,
            ),
        source@.len() + 2 > usize::MAX ==> r@ == source@,
{
    let chars = chars_of(source);
    if chars.len() > usize::MAX - 2 {
        return source.to_owned();
    }
    let root = syntax_tree(tree, &chars);
    let out = format_syntax_tree(&chars, &root, line_width, use_spaces, tab_width);
    string_of(&out)
}

} // verus!
