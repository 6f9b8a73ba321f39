//! Properties of the formatter as a whole.
use vstd::prelude::*;
use crate::printer::{
    children_replacements, formatted_source, indent_unit, replacements, splice_from, Replacement,
};
use crate::syntax::SyntaxNode;
use crate::tags::{
    is_tag_kind, any_quotes_overlap, any_value_needs_split, data_attrs, formatted_tag, non_data_attrs_from,
    one_line_width, tag_depth, tag_name_of, AttrView,
};
use crate::text::{all_ascii_whitespace, is_ascii_whitespace, line_start, trimmed, utf8_len};
use crate::value::{next_depth, split_from, split_top_level, splits_at, value_needs_split};

verus! {

/// The spans of `spans` follow one another from position `from` on, each
/// within `0..len`, none overlapping the next.
pub open spec fn spans_in_order(spans: Seq<Replacement>, from: int, len: int) -> bool
    decreases spans.len(),
{
    spans.len() == 0 || (from <= spans[0].0 <= spans[0].1 <= len && spans_in_order(
        spans.drop_first(),
        spans[0].1,
        len,
    ))
}

/// `src[cursor..]` with each span of `spans` replaced by its text: the text
/// between two spans is the source's own.
pub open spec fn assembled(src: Seq<char>, spans: Seq<Replacement>, cursor: int) -> Seq<char>
    decreases spans.len(),
{
    if spans.len() == 0 {
        src.subrange(cursor, src.len() as int)
    } else {
        src.subrange(cursor, spans[0].0) + spans[0].2 + assembled(src, spans.drop_first(), spans[0].1)
    }
}

/// The replacements among `reps[i..]` that a splice from `cursor` applies.
pub open spec fn applied_from(len: int, reps: Seq<Replacement>, i: int, cursor: int) -> Seq<
    Replacement,
>
    decreases reps.len() - i,
{
    if i < 0 || i >= reps.len() {
        Seq::empty()
    } else {
        let r = reps[i];
        if cursor <= r.0 && r.0 <= r.1 && r.1 <= len {
            seq![r] + applied_from(len, reps, i + 1, r.1)
        } else {
            applied_from(len, reps, i + 1, cursor)
        }
    }
}

proof fn lemma_splice_is_assembled(src: Seq<char>, reps: Seq<Replacement>, i: int, cursor: int)
    requires
        0 <= i <= reps.len(),
        0 <= cursor <= src.len(),
    ensures
        spans_in_order(applied_from(src.len() as int, reps, i, cursor), cursor, src.len() as int),
        splice_from(src, reps, i, cursor) == assembled(
            src,
            applied_from(src.len() as int, reps, i, cursor),
            cursor,
        ),
        forall|k: int|
            0 <= k < applied_from(src.len() as int, reps, i, cursor).len() ==> reps.contains(
                #[trigger] applied_from(src.len() as int, reps, i, cursor)[k],
            ),
    decreases reps.len() - i,
{
    let len = src.len() as int;
    if i < reps.len() {
        let r = reps[i];
        if cursor <= r.0 && r.0 <= r.1 && r.1 <= len {
            lemma_splice_is_assembled(src, reps, i + 1, r.1);
            let rest = applied_from(len, reps, i + 1, r.1);
            let all = applied_from(len, reps, i, cursor);
            assert(all == seq![r] + rest);
            assert(all.drop_first() =~= rest);
            assert(all[0] == r);
            assert forall|k: int| 0 <= k < all.len() implies reps.contains(#[trigger] all[k]) by {
                if k == 0 {
                    assert(reps[i] == all[k]);
                } else {
                    assert(all[k] == rest[k - 1]);
                }
            }
        } else {
            lemma_splice_is_assembled(src, reps, i + 1, cursor);
        }
    }
}

/// Everything outside the replaced spans stays as it is: the output is the
/// source with an ordered series of non-overlapping spans, each one of the
/// tag replacements, replaced by their new texts.
pub proof fn lemma_text_outside_tags_kept(
    src: Seq<char>,
    root: SyntaxNode,
    line_width: nat,
    use_spaces: bool,
    tab_width: nat,
)
    requires
        root.wf(src.len()),
    ensures
        exists|spans: Seq<Replacement>|
            spans_in_order(spans, 0, src.len() as int) && formatted_source(
                src,
                root,
                line_width,
                use_spaces,
                tab_width,
            ) == assembled(src, spans, 0) && forall|k: int|
                0 <= k < spans.len() ==> replacements(
                    src,
                    root,
                    indent_unit(use_spaces, tab_width),
                    line_width,
                ).contains(#[trigger] spans[k]),
{
    let reps = replacements(src, root, indent_unit(use_spaces, tab_width), line_width);
    if reps.len() == 0 {
        let spans = Seq::<Replacement>::empty();
        assert(src.subrange(0, src.len() as int) =~= src);
        assert(spans_in_order(spans, 0, src.len() as int));
        assert(formatted_source(src, root, line_width, use_spaces, tab_width) == assembled(
            src,
            spans,
            0,
        ));
    } else {
        lemma_splice_is_assembled(src, reps, 0, 0);
        let spans = applied_from(src.len() as int, reps, 0, 0);
        assert(formatted_source(src, root, line_width, use_spaces, tab_width) == assembled(
            src,
            spans,
            0,
        ));
    }
}

/// A replaced span ends where its tag ends and starts where the tag starts, or
/// at the start of the tag's line when only whitespace precedes the tag there.
pub proof fn lemma_replaced_span_is_tag(
    src: Seq<char>,
    node: SyntaxNode,
    indent: Seq<char>,
    line_width: nat,
)
    requires
        node.wf(src.len()),
        formatted_tag(src, node, indent, line_width) is Some,
    ensures
        ({
            let r = formatted_tag(src, node, indent, line_width)->0;
            &&& r.1 == node.end
            &&& (r.0 == node.start || (r.0 == line_start(src, node.start as int)
                && all_ascii_whitespace(src.subrange(r.0, node.start as int))))
        }),
{
}

/// The one-line width of a tag, from its syntax.
pub open spec fn tag_one_line_width(src: Seq<char>, node: SyntaxNode) -> nat {
    let data = data_attrs(src, node);
    let tag_name = match tag_name_of(src, node) {
        Some(t) => t,
        None => Seq::empty(),
    };
    one_line_width(
        data,
        non_data_attrs_from(src, node, data, 0),
        tag_name,
        tag_depth(src, node.start as int),
    )
}

/// A tag with two or more Datastar attributes that does not fit on one line is split.
pub proof fn lemma_wide_tag_split(src: Seq<char>, node: SyntaxNode, indent: Seq<char>, line_width: nat)
    requires
        data_attrs(src, node).len() >= 2,
        !any_quotes_overlap(data_attrs(src, node)),
        tag_one_line_width(src, node) > line_width,
    ensures
        formatted_tag(src, node, indent, line_width) is Some,
{
}

/// A tag with a Datastar attribute whose value has more than one statement, or
/// is longer than the line width, is split.
pub proof fn lemma_tag_with_long_value_split(
    src: Seq<char>,
    node: SyntaxNode,
    indent: Seq<char>,
    line_width: nat,
    k: int,
)
    requires
        0 <= k < data_attrs(src, node).len(),
        value_needs_split(data_attrs(src, node)[k].1, line_width),
        !any_quotes_overlap(data_attrs(src, node)),
    ensures
        formatted_tag(src, node, indent, line_width) is Some,
{
    let data = data_attrs(src, node);
    assert(any_value_needs_split(data, line_width));
}

/// A tag is left as it is when none of its values needs several lines and it
/// has fewer than two Datastar attributes or fits on one line.
pub proof fn lemma_fitting_tag_kept(src: Seq<char>, node: SyntaxNode, indent: Seq<char>, line_width: nat)
    requires
        !any_value_needs_split(data_attrs(src, node), line_width),
        data_attrs(src, node).len() < 2 || tag_one_line_width(src, node) <= line_width,
    ensures
        formatted_tag(src, node, indent, line_width) is None,
{
}

/// Without any tag to split, the output is the source.
pub proof fn lemma_nothing_to_split_no_change(
    src: Seq<char>,
    root: SyntaxNode,
    line_width: nat,
    use_spaces: bool,
    tab_width: nat,
)
    requires
        replacements(src, root, indent_unit(use_spaces, tab_width), line_width).len() == 0,
    ensures
        formatted_source(src, root, line_width, use_spaces, tab_width) == src,
{
}

/// The children of each node lie within it, in order, none overlapping the
/// next, as in a tree that a parser builds.
pub open spec fn nested(node: SyntaxNode) -> bool
    decreases node,
{
    &&& forall|i: int|
        0 <= i < node.children@.len() ==> node.start <= (#[trigger] node.children@[i]).start
            && node.children@[i].end <= node.end
    &&& forall|i: int|
        0 <= i < node.children@.len() - 1 ==> (#[trigger] node.children@[i]).end
            <= node.children@[i + 1].start
    &&& forall|i: int| 0 <= i < node.children@.len() ==> nested(#[trigger] node.children@[i])
}

/// Each tag in the tree ends with a character other than whitespace, as a
/// tag's `>` is.
pub open spec fn tags_closed(src: Seq<char>, node: SyntaxNode) -> bool
    decreases node,
{
    if is_tag_kind(node.kind) {
        node.start < node.end && !is_ascii_whitespace(src[node.end - 1])
    } else {
        forall|i: int|
            0 <= i < node.children@.len() ==> tags_closed(src, #[trigger] node.children@[i])
    }
}

/// The position after the last of `spans`, or `from` when there is none.
pub open spec fn spans_end(spans: Seq<Replacement>, from: int) -> int {
    if spans.len() == 0 {
        from
    } else {
        spans.last().1
    }
}

proof fn lemma_line_start_le(src: Seq<char>, pos: int)
    ensures
        pos >= 0 ==> 0 <= line_start(src, pos) <= pos,
    decreases pos,
{
    if pos > 0 && src[pos - 1] != '\n' {
        lemma_line_start_le(src, pos - 1);
    }
}

proof fn lemma_spans_in_order_concat(a: Seq<Replacement>, b: Seq<Replacement>, from: int, len: int)
    requires
        spans_in_order(a, from, len),
        spans_in_order(b, spans_end(a, from), len),
    ensures
        spans_in_order(a + b, from, len),
        spans_end(a + b, from) == spans_end(b, spans_end(a, from)),
    decreases a.len(),
{
    if a.len() > 0 {
        let t = a.drop_first();
        assert(spans_end(t, a[0].1) == spans_end(a, from)) by {
            if t.len() > 0 {
                assert(t.last() == a.last());
            }
        }
        lemma_spans_in_order_concat(t, b, a[0].1, len);
        assert((a + b).drop_first() =~= t + b);
        assert((a + b)[0] == a[0]);
        if b.len() > 0 {
            assert((a + b).last() == b.last());
        } else {
            assert(a + b =~= a);
        }
    } else {
        assert(a + b =~= b);
    }
}

/// The replacements of a nested tree follow one another from any position
/// `p` that is at most the tree's start and that follows a character other
/// than whitespace, and end after such a character, within the tree.
proof fn lemma_replacements_in_order(
    src: Seq<char>,
    node: SyntaxNode,
    indent: Seq<char>,
    line_width: nat,
    p: int,
)
    requires
        node.wf(src.len()),
        nested(node),
        tags_closed(src, node),
        0 <= p <= node.start,
        p == 0 || !is_ascii_whitespace(src[p - 1]),
    ensures
        ({
            let reps = replacements(src, node, indent, line_width);
            &&& spans_in_order(reps, p, src.len() as int)
            &&& reps.len() > 0 ==> 1 <= reps.last().1 <= node.end && !is_ascii_whitespace(
                src[reps.last().1 - 1],
            )
        }),
    decreases node, 1nat, 0int,
{
    let reps = replacements(src, node, indent, line_width);
    if is_tag_kind(node.kind) {
        match formatted_tag(src, node, indent, line_width) {
            Some(r) => {
                lemma_replaced_span_is_tag(src, node, indent, line_width);
                lemma_line_start_le(src, node.start as int);
                if r.0 < p {
                    assert(is_ascii_whitespace(src.subrange(r.0, node.start as int)[p - 1 - r.0]));
                }
                assert(reps == seq![r]);
                assert(reps.drop_first() =~= Seq::<Replacement>::empty());
                assert(spans_in_order(reps.drop_first(), r.1, src.len() as int));
                assert(p <= r.0 <= r.1 <= src.len());
                assert(reps.last() == r);
            },
            None => {},
        }
    } else {
        let n = node.children@.len() as int;
        lemma_children_in_order(src, node, indent, line_width, p, n);
        assert(reps == children_replacements(src, node, indent, line_width, n));
        if n > 0 {
            assert(node.children@[n - 1].end <= node.end);
        }
    }
}

/// The replacements of the first `k` children of `node`, as above, ending
/// within the `k`th child.
#[verifier::spinoff_prover]
#[verifier::rlimit(40)]
proof fn lemma_children_in_order(
    src: Seq<char>,
    node: SyntaxNode,
    indent: Seq<char>,
    line_width: nat,
    p: int,
    k: int,
)
    requires
        node.wf(src.len()),
        nested(node),
        !is_tag_kind(node.kind),
        tags_closed(src, node),
        0 <= p <= node.start,
        p == 0 || !is_ascii_whitespace(src[p - 1]),
        0 <= k <= node.children@.len(),
    ensures
        ({
            let reps = children_replacements(src, node, indent, line_width, k);
            &&& spans_in_order(reps, p, src.len() as int)
            &&& reps.len() > 0 ==> 1 <= reps.last().1 && !is_ascii_whitespace(
                src[reps.last().1 - 1],
            ) && k > 0 && reps.last().1 <= node.children@[k - 1].end
        }),
    decreases node, 0nat, k,
{
    if k > 0 {
        lemma_children_in_order(src, node, indent, line_width, p, k - 1);
        let before = children_replacements(src, node, indent, line_width, k - 1);
        let c = node.children@[k - 1];
        assert(c.wf(src.len()));
        assert(nested(c));
        assert(tags_closed(src, c));
        let q = spans_end(before, p);
        assert(node.start <= c.start);
        if before.len() > 0 {
            assert(node.children@[k - 2].end <= c.start);
        }
        assert(q <= c.start);
        assert(q == 0 || !is_ascii_whitespace(src[q - 1]));
        lemma_replacements_in_order(src, c, indent, line_width, q);
        let mine = replacements(src, c, indent, line_width);
        lemma_spans_in_order_concat(before, mine, p, src.len() as int);
        let all = children_replacements(src, node, indent, line_width, k);
        assert(all == before + mine);
        if all.len() > 0 {
            if mine.len() > 0 {
                assert(all.last() == mine.last());
            } else {
                assert(all =~= before);
                assert(node.children@[k - 2].end <= c.start);
                assert(c.start <= c.end);
            }
        }
    } else {
        assert(children_replacements(src, node, indent, line_width, k) =~= Seq::<Replacement>::empty());
    }
}

/// In a tree that a parser builds, with children nested in order and tags
/// that end in `>`, every tag replacement is applied: the output is the
/// source with each replacement's span, in order, replaced by its text.
#[verifier::spinoff_prover]
#[verifier::rlimit(40)]
pub proof fn lemma_every_tag_replaced(
    src: Seq<char>,
    root: SyntaxNode,
    line_width: nat,
    use_spaces: bool,
    tab_width: nat,
)
    requires
        root.wf(src.len()),
        nested(root),
        tags_closed(src, root),
    ensures
        ({
            let reps = replacements(src, root, indent_unit(use_spaces, tab_width), line_width);
            &&& spans_in_order(reps, 0, src.len() as int)
            &&& formatted_source(src, root, line_width, use_spaces, tab_width) == assembled(
                src,
                reps,
                0,
            )
        }),
{
    let indent = indent_unit(use_spaces, tab_width);
    let reps = replacements(src, root, indent, line_width);
    lemma_replacements_in_order(src, root, indent, line_width, 0);
    if reps.len() == 0 {
        assert(src.subrange(0, src.len() as int) =~= src);
    } else {
        lemma_splice_is_assembled(src, reps, 0, 0);
        assert(reps.subrange(0, reps.len() as int) =~= reps);
        lemma_applied_all(src.len() as int, reps, 0, 0);
    }
}

/// A splice from `cursor` applies every one of `reps[i..]` when they follow
/// one another from `cursor`.
proof fn lemma_applied_all(len: int, reps: Seq<Replacement>, i: int, cursor: int)
    requires
        0 <= i <= reps.len(),
        spans_in_order(reps.subrange(i, reps.len() as int), cursor, len),
    ensures
        applied_from(len, reps, i, cursor) == reps.subrange(i, reps.len() as int),
    decreases reps.len() - i,
{
    let rest = reps.subrange(i, reps.len() as int);
    if i < reps.len() {
        assert(rest[0] == reps[i]);
        assert(rest.drop_first() =~= reps.subrange(i + 1, reps.len() as int));
        lemma_applied_all(len, reps, i + 1, reps[i].1);
        assert(seq![reps[i]] + reps.subrange(i + 1, reps.len() as int) =~= rest);
    } else {
        assert(rest =~= Seq::<Replacement>::empty());
    }
}

/// `ps[0] + used[0] + ps[1] + used[1] + ... + ps[last]`: the parts joined again
/// with the separators between them.
pub open spec fn rejoined(ps: Seq<Seq<char>>, used: Seq<char>) -> Seq<char>
    decreases ps.len(),
{
    if ps.len() == 0 {
        Seq::empty()
    } else if ps.len() == 1 || used.len() == 0 {
        ps[0]
    } else {
        ps[0] + seq![used[0]] + rejoined(ps.drop_first(), used.drop_first())
    }
}

proof fn lemma_split_from_rejoins(
    c: Seq<char>,
    seps: Seq<char>,
    i: int,
    d: nat,
    last: int,
    parts: Seq<Seq<char>>,
) -> (used: Seq<char>)
    requires
        0 <= last <= i <= c.len(),
    ensures
        ({
            let all = split_from(c, seps, i, d, last, parts);
            let ps = all.subrange(parts.len() as int, all.len() as int);
            &&& all.len() == parts.len() + used.len() + 1
            &&& all.subrange(0, parts.len() as int) == parts
            &&& forall|k: int| 0 <= k < used.len() ==> seps.contains(#[trigger] used[k])
            &&& rejoined(ps, used) == c.subrange(last, c.len() as int)
        }),
    decreases c.len() - i,
{
    let all = split_from(c, seps, i, d, last, parts);
    if i >= c.len() {
        let ps = all.subrange(parts.len() as int, all.len() as int);
        assert(all == parts.push(c.subrange(last, c.len() as int)));
        assert(all.subrange(0, parts.len() as int) =~= parts);
        assert(ps =~= seq![c.subrange(last, c.len() as int)]);
        Seq::empty()
    } else if splits_at(c, seps, d, i) {
        let piece = c.subrange(last, i);
        let np = parts.push(piece);
        let rest = lemma_split_from_rejoins(c, seps, i + 1, d, i + 1, np);
        assert(all == split_from(c, seps, i + 1, d, i + 1, np));
        let used = seq![c[i]] + rest;
        let ps = all.subrange(parts.len() as int, all.len() as int);
        let ps2 = all.subrange(np.len() as int, all.len() as int);
        assert(all.subrange(0, np.len() as int) == np);
        assert(all.subrange(0, parts.len() as int) =~= parts) by {
            assert(all.subrange(0, parts.len() as int) =~= np.subrange(0, parts.len() as int));
        }
        assert(ps[0] == piece) by {
            assert(all.subrange(0, np.len() as int)[parts.len() as int] == piece);
        }
        assert(ps.drop_first() =~= ps2);
        assert(used[0] == c[i]);
        assert(used.drop_first() =~= rest);
        assert(ps.len() >= 2);
        assert(rejoined(ps, used) == piece + seq![c[i]] + rejoined(ps2, rest));
        assert(c.subrange(last, c.len() as int) =~= piece + seq![c[i]] + c.subrange(
            i + 1,
            c.len() as int,
        ));
        assert forall|k: int| 0 <= k < used.len() implies seps.contains(#[trigger] used[k]) by {
            if k > 0 {
                assert(used[k] == rest[k - 1]);
            }
        }
        used
    } else {
        let used = lemma_split_from_rejoins(c, seps, i + 1, next_depth(d, c[i]), last, parts);
        assert(all == split_from(c, seps, i + 1, next_depth(d, c[i]), last, parts));
        used
    }
}

/// Splitting at top-level separators loses nothing: joining the parts again,
/// with the separators that stood between them, gives back the content. The
/// separators returned are those, in order.
pub proof fn lemma_split_top_level_rejoins(content: Seq<char>, seps: Seq<char>) -> (used: Seq<char>)
    ensures
        split_top_level(content, seps).len() == used.len() + 1,
        forall|k: int| 0 <= k < used.len() ==> seps.contains(#[trigger] used[k]),
        rejoined(split_top_level(content, seps), used) == content,
{
    let used = lemma_split_from_rejoins(content, seps, 0, 0, 0, Seq::empty());
    let all = split_top_level(content, seps);
    assert(all.subrange(0, all.len() as int) =~= all);
    assert(content.subrange(0, content.len() as int) =~= content);
    used
}

/// The width of a tag on one line is that of its indentation, `<`, its name
/// and `>` (`depth + len(name) + 2` with no attributes); each other attribute
/// `a` adds ` a`, and each Datastar attribute adds ` name` or ` name=value`
/// with its value trimmed, all counted in UTF-8 bytes.
pub proof fn lemma_one_line_width_counts(
    data: Seq<AttrView>,
    non_data: Seq<Seq<char>>,
    tag_name: Seq<char>,
    depth: nat,
    other: Seq<char>,
    attr: AttrView,
)
    ensures
        one_line_width(Seq::empty(), Seq::empty(), tag_name, depth) == depth + utf8_len(tag_name)
            + 2,
        one_line_width(data, non_data.push(other), tag_name, depth) == one_line_width(
            data,
            non_data,
            tag_name,
            depth,
        ) + utf8_len(other) + 1,
        one_line_width(data.push(attr), non_data, tag_name, depth) == one_line_width(
            data,
            non_data,
            tag_name,
            depth,
        ) + 1 + utf8_len(attr.0) + match attr.1 {
            Some(v) => 1 + utf8_len(trimmed(v)),
            None => 0,
        },
{
    assert(non_data.push(other).drop_last() =~= non_data);
    assert(data.push(attr).drop_last() =~= data);
}

} // verus!
