//! Reading the attributes of a tag out of the syntax tree, deciding whether
//! the tag is split over several lines, and building its new text.
use vstd::prelude::*;
use crate::printer::{format_value, Printer};
use crate::syntax::{NodeKind, SyntaxNode};
use crate::text::{
    all_ascii_whitespace, before_first, before_first_chars, chars_of, count_tabs, ends_with,
    ends_with_chars, lit1, lit2, line_start, push_range, repeat, slice_chars, starts_with,
    starts_with_chars, trim, trimmed, utf8_len,
};
use crate::value::{
    formatted_value, newline_text, quotes_overlap, quotes_overlap_chars, value_needs_split,
    value_needs_split_chars, views,
};

verus! {

/// An attribute as the formatter reads it: its name, its value where it has
/// one, and the position where the attribute starts.
pub type AttrView = (Seq<char>, Option<Seq<char>>, int);

pub open spec fn opt_view(o: Option<Vec<char>>) -> Option<Seq<char>> {
    match o {
        Some(v) => Some(v@),
        None => None,
    }
}

pub open spec fn node_text(src: Seq<char>, n: SyntaxNode) -> Seq<char> {
    src.subrange(n.start as int, n.end as int)
}

pub open spec fn is_tag_kind(k: NodeKind) -> bool {
    k is StartTag || k is SelfClosingTag || k is JsxOpeningElement || k is JsxSelfClosingElement
}

pub open spec fn is_attribute_kind(k: NodeKind) -> bool {
    k is Attribute || k is JsxAttribute
}

pub open spec fn is_value_kind(k: NodeKind) -> bool {
    k is QuotedAttributeValue || k is AttributeValue || k is StringLiteral || k is TemplateString
        || k is JsxExpression
}

pub open spec fn is_tag_name_kind(k: NodeKind) -> bool {
    k is TagName || k is JsxTagName || k is JsxIdentifier || k is Identifier
}

pub open spec fn is_name_piece_kind(k: NodeKind) -> bool {
    k is PropertyIdentifier || k is Colon || k is Identifier
}

pub open spec fn is_name_stop_kind(k: NodeKind) -> bool {
    k is Equals || k is JsxExpression || k is StringLiteral || k is TemplateString
        || k is QuotedAttributeValue
}

/// The text of a node that holds an attribute value.
pub open spec fn value_text(src: Seq<char>, n: SyntaxNode) -> Option<Seq<char>> {
    if is_value_kind(n.kind) {
        Some(node_text(src, n))
    } else {
        None
    }
}

/// The first value among `cs[i..]`.
pub open spec fn first_value_from(src: Seq<char>, cs: Seq<SyntaxNode>, i: int) -> Option<Seq<char>>
    decreases cs.len() - i,
{
    if i < 0 || i >= cs.len() {
        None
    } else if value_text(src, cs[i]) is Some {
        value_text(src, cs[i])
    } else {
        first_value_from(src, cs, i + 1)
    }
}

/// The value that follows the attribute `cs[idx]` among its siblings, past an `=`.
pub open spec fn value_in_siblings(src: Seq<char>, cs: Seq<SyntaxNode>, idx: int) -> Option<
    Seq<char>,
> {
    let j = if idx + 1 < cs.len() && cs[idx + 1].kind is Equals {
        idx + 2
    } else {
        idx + 1
    };
    if j < cs.len() {
        value_text(src, cs[j])
    } else {
        None
    }
}

/// The value of the attribute `cs[idx]`: the first value among its children,
/// else the value that follows it.
pub open spec fn attr_value(src: Seq<char>, cs: Seq<SyntaxNode>, idx: int) -> Option<Seq<char>> {
    match first_value_from(src, cs[idx].children@, 0) {
        Some(v) => Some(v),
        None => value_in_siblings(src, cs, idx),
    }
}

/// The texts of the name pieces among `cs[i..]` that come before the value.
pub open spec fn name_pieces_from(src: Seq<char>, cs: Seq<SyntaxNode>, i: int) -> Seq<char>
    decreases cs.len() - i,
{
    if i < 0 || i >= cs.len() {
        Seq::empty()
    } else if is_name_piece_kind(cs[i].kind) {
        node_text(src, cs[i]) + name_pieces_from(src, cs, i + 1)
    } else if is_name_stop_kind(cs[i].kind) {
        Seq::empty()
    } else {
        name_pieces_from(src, cs, i + 1)
    }
}

/// The name of an attribute: its `name` field, else its name pieces, else its
/// text up to the first `=`, trimmed.
pub open spec fn attr_name(src: Seq<char>, n: SyntaxNode) -> Seq<char> {
    match n.name_field {
        Some(r) => src.subrange(r.0 as int, r.1 as int),
        None => {
            let pieces = name_pieces_from(src, n.children@, 0);
            if pieces.len() > 0 {
                pieces
            } else {
                trimmed(before_first(node_text(src, n), '='))
            }
        },
    }
}

/// The Datastar attribute prefixes.
pub open spec fn known_prefix(k: int) -> Seq<char> {
    if k == 0 {
        "data-bind"@
    } else if k == 1 {
        "data-on"@
    } else if k == 2 {
        "data-show"@
    } else if k == 3 {
        "data-text"@
    } else if k == 4 {
        "data-html"@
    } else if k == 5 {
        "data-class"@
    } else if k == 6 {
        "data-attr"@
    } else if k == 7 {
        "data-indicator"@
    } else if k == 8 {
        "data-persist"@
    } else if k == 9 {
        "data-ref"@
    } else if k == 10 {
        "data-store"@
    } else if k == 11 {
        "data-computed"@
    } else if k == 12 {
        "data-effect"@
    } else if k == 13 {
        "data-signals"@
    } else if k == 14 {
        "data-intersects"@
    } else if k == 15 {
        "data-scroll-into-view"@
    } else if k == 16 {
        "data-view-transition"@
    } else if k == 17 {
        "data-header"@
    } else if k == 18 {
        "data-replace-url"@
    } else {
        "data-style"@
    }
}

pub open spec fn known_prefix_count() -> int {
    20
}

/// A Datastar attribute: its name starts with `data-` and with one of the
/// known prefixes.
pub open spec fn is_data_attr(name: Seq<char>) -> bool {
    starts_with(name, "data-"@) && exists|k: int|
        0 <= k < known_prefix_count() && starts_with(name, #[trigger] known_prefix(k))
}

/// The Datastar attributes among the children `tag.children[i..]`.
pub open spec fn data_attrs_from(src: Seq<char>, tag: SyntaxNode, i: int) -> Seq<AttrView>
    decreases tag.children@.len() - i,
{
    if i < 0 || i >= tag.children@.len() {
        Seq::empty()
    } else {
        let c = tag.children@[i];
        let rest = data_attrs_from(src, tag, i + 1);
        if is_attribute_kind(c.kind) && is_data_attr(attr_name(src, c)) {
            seq![(attr_name(src, c), attr_value(src, tag.children@, i), c.start as int)] + rest
        } else {
            rest
        }
    }
}

pub open spec fn data_attrs(src: Seq<char>, tag: SyntaxNode) -> Seq<AttrView> {
    data_attrs_from(src, tag, 0)
}

pub open spec fn has_start(data: Seq<AttrView>, s: int) -> bool {
    exists|k: int| 0 <= k < data.len() && (#[trigger] data[k]).2 == s
}

/// Attributes, and JSX spread attributes `{...x}`.
pub open spec fn is_any_attribute_kind(k: NodeKind) -> bool {
    is_attribute_kind(k) || k is JsxExpression
}

/// The texts of the other attributes among `tag.children[i..]`, JSX spread
/// attributes included: those that do not start where a Datastar attribute starts.
pub open spec fn non_data_attrs_from(src: Seq<char>, tag: SyntaxNode, data: Seq<AttrView>, i: int) -> Seq<
    Seq<char>,
>
    decreases tag.children@.len() - i,
{
    if i < 0 || i >= tag.children@.len() {
        Seq::empty()
    } else {
        let c = tag.children@[i];
        let rest = non_data_attrs_from(src, tag, data, i + 1);
        if is_any_attribute_kind(c.kind) && !has_start(data, c.start as int) {
            seq![node_text(src, c)] + rest
        } else {
            rest
        }
    }
}

/// The text of the first tag-name child among `cs[i..]`.
pub open spec fn tag_name_from(src: Seq<char>, cs: Seq<SyntaxNode>, i: int) -> Option<Seq<char>>
    decreases cs.len() - i,
{
    if i < 0 || i >= cs.len() {
        None
    } else if is_tag_name_kind(cs[i].kind) {
        Some(node_text(src, cs[i]))
    } else {
        tag_name_from(src, cs, i + 1)
    }
}

/// The name of a tag: its `name` field (a JSX element's name, whatever its
/// kind), else its first tag-name child.
pub open spec fn tag_name_of(src: Seq<char>, node: SyntaxNode) -> Option<Seq<char>> {
    match node.name_field {
        Some(r) => Some(src.subrange(r.0 as int, r.1 as int)),
        None => tag_name_from(src, node.children@, 0),
    }
}

/// The width of ` name` or ` name=value` on one line.
pub open spec fn attr_width(a: AttrView) -> nat {
    1 + utf8_len(a.0) + match a.1 {
        Some(v) => 1 + utf8_len(trimmed(v)),
        None => 0,
    }
}

pub open spec fn data_width(data: Seq<AttrView>) -> nat
    decreases data.len(),
{
    if data.len() == 0 {
        0
    } else {
        data_width(data.drop_last()) + attr_width(data.last())
    }
}

pub open spec fn non_data_width(non_data: Seq<Seq<char>>) -> nat
    decreases non_data.len(),
{
    if non_data.len() == 0 {
        0
    } else {
        non_data_width(non_data.drop_last()) + utf8_len(non_data.last()) + 1
    }
}

pub open spec fn any_value_needs_split(data: Seq<AttrView>, line_width: nat) -> bool {
    exists|k: int| 0 <= k < data.len() && value_needs_split((#[trigger] data[k]).1, line_width)
}

/// The width of the whole tag on one line, its indentation included.
pub open spec fn one_line_width(
    data: Seq<AttrView>,
    non_data: Seq<Seq<char>>,
    tag_name: Seq<char>,
    depth: nat,
) -> nat {
    depth + 1 + utf8_len(tag_name) + non_data_width(non_data) + data_width(data) + 1
}

/// A tag is split when one of its values needs several lines, or when it has
/// two or more Datastar attributes and does not fit on one line.
pub open spec fn should_split_tag(
    data: Seq<AttrView>,
    non_data: Seq<Seq<char>>,
    tag_name: Seq<char>,
    depth: nat,
    line_width: nat,
) -> bool {
    any_value_needs_split(data, line_width) || (data.len() >= 2 && one_line_width(
        data,
        non_data,
        tag_name,
        depth,
    ) > line_width)
}

pub open spec fn any_quotes_overlap(data: Seq<AttrView>) -> bool {
    exists|k: int|
        0 <= k < data.len() && ((#[trigger] data[k]).1 matches Some(v) && quotes_overlap(
            trimmed(v),
        ))
}

/// ` a` for each attribute `a`.
pub open spec fn non_data_text(non_data: Seq<Seq<char>>) -> Seq<char>
    decreases non_data.len(),
{
    if non_data.len() == 0 {
        Seq::empty()
    } else {
        non_data_text(non_data.drop_last()) + seq![' '] + non_data.last()
    }
}

/// Each Datastar attribute on a line of its own at `depth`, its value laid out.
pub open spec fn data_text(data: Seq<AttrView>, indent: Seq<char>, depth: nat, line_width: nat) -> Seq<
    char,
>
    decreases data.len(),
{
    if data.len() == 0 {
        Seq::empty()
    } else {
        let a = data.last();
        data_text(data.drop_last(), indent, depth, line_width) + newline_text(indent, depth) + a.0
            + match a.1 {
            Some(v) => seq!['='] + formatted_value(v, indent, depth, line_width),
            None => Seq::empty(),
        }
    }
}

/// The tag's indentation: the tabs between the start of its line and the tag.
pub open spec fn tag_depth(src: Seq<char>, pos: int) -> nat {
    count_tabs(src.subrange(line_start(src, pos), pos))
}

/// The reformatted text of the tag `node` and the range `start..end` it replaces,
/// or `None` where the tag stays as it is. The tag stays when it has no Datastar
/// attribute, when the quotes of one of their values overlap (such as `"`), or
/// when it is not split. When only whitespace precedes the tag on its line,
/// the range starts at the line's start and the text with the tag's
/// indentation; otherwise both start at the tag's `<`.
pub open spec fn formatted_tag(src: Seq<char>, node: SyntaxNode, indent: Seq<char>, line_width: nat) -> Option<
    (int, int, Seq<char>),
> {
    let data = data_attrs(src, node);
    if data.len() == 0 || any_quotes_overlap(data) {
        None
    } else {
        let tag_name = match tag_name_of(src, node) {
            Some(t) => t,
            None => Seq::empty(),
        };
        let non_data = non_data_attrs_from(src, node, data, 0);
        let depth = tag_depth(src, node.start as int);
        let ls = line_start(src, node.start as int);
        if !should_split_tag(data, non_data, tag_name, depth, line_width) {
            None
        } else {
            let own_line = all_ascii_whitespace(src.subrange(ls, node.start as int));
            let start = if own_line {
                ls
            } else {
                node.start as int
            };
            let lead = if own_line {
                repeat(indent, depth)
            } else {
                Seq::empty()
            };
            let close = if ends_with(node_text(src, node), seq!['/', '>']) {
                seq![' ', '/', '>']
            } else {
                seq!['>']
            };
            Some(
                (
                    start,
                    node.end as int,
                    lead + seq!['<'] + tag_name + non_data_text(non_data)
                        + data_text(data, indent, depth + 1, line_width) + close,
                ),
            )
        }
    }
}

/// A Datastar attribute read out of a tag.
pub struct AttrInfo {
    pub name: Vec<char>,
    pub value: Option<Vec<char>>,
    pub full_start: usize,
}

impl View for AttrInfo {
    type V = AttrView;

    open spec fn view(&self) -> AttrView {
        (self.name@, opt_view(self.value), self.full_start as int)
    }
}

pub open spec fn attr_views(s: Seq<AttrInfo>) -> Seq<AttrView> {
    s.map_values(|a: AttrInfo| a@)
}

fn is_value_node(n: &SyntaxNode) -> (r: bool)
    ensures
        r == is_value_kind(n.kind),
{
    matches!(
        n.kind,
        NodeKind::QuotedAttributeValue | NodeKind::AttributeValue | NodeKind::StringLiteral
            | NodeKind::TemplateString
            | NodeKind::JsxExpression
    )
}

fn value_text_of(n: &SyntaxNode, src: &Vec<char>) -> (r: Option<Vec<char>>)
    requires
        n.wf(src@.len()),
    ensures
        opt_view(r) == value_text(src@, *n),
{
    if is_value_node(n) {
        Some(slice_chars(src, n.start, n.end))
    } else {
        None
    }
}

/// The first value among `children`.
fn value_from_children(children: &Vec<SyntaxNode>, src: &Vec<char>) -> (r: Option<Vec<char>>)
    requires
        forall|i: int| 0 <= i < children@.len() ==> (#[trigger] children@[i]).wf(src@.len()),
    ensures
        opt_view(r) == first_value_from(src@, children@, 0),
{
    let mut i: usize = 0;
    while i < children.len()
        invariant
            i <= children.len(),
            forall|j: int| 0 <= j < children@.len() ==> (#[trigger] children@[j]).wf(src@.len()),
            first_value_from(src@, children@, 0) == first_value_from(src@, children@, i as int),
        decreases children.len() - i,
    {
        assert(children@[i as int].wf(src@.len()));
        let v = value_text_of(&children[i], src);
        if v.is_some() {
            return v;
        }
        i = i + 1;
    }
    None
}

/// The value that follows `children[idx]`, past an `=`.
fn find_value_in_siblings(idx: usize, children: &Vec<SyntaxNode>, src: &Vec<char>) -> (r: Option<
    Vec<char>,
>)
    requires
        idx < children.len(),
        forall|i: int| 0 <= i < children@.len() ==> (#[trigger] children@[i]).wf(src@.len()),
    ensures
        opt_view(r) == value_in_siblings(src@, children@, idx as int),
{
    let mut j = idx + 1;
    if j < children.len() && matches!(children[j].kind, NodeKind::Equals) {
        j = j + 1;
    }
    if j < children.len() {
        assert(children@[j as int].wf(src@.len()));
        value_text_of(&children[j], src)
    } else {
        None
    }
}

/// The value of the attribute `children[idx]`.
fn find_attr_value(children: &Vec<SyntaxNode>, idx: usize, src: &Vec<char>) -> (r: Option<Vec<char>>)
    requires
        idx < children@.len(),
        forall|i: int| 0 <= i < children@.len() ==> (#[trigger] children@[i]).wf(src@.len()),
    ensures
        opt_view(r) == attr_value(src@, children@, idx as int),
{
    assert(children@[idx as int].wf(src@.len()));
    match value_from_children(&children[idx].children, src) {
        Some(v) => Some(v),
        None => find_value_in_siblings(idx, children, src),
    }
}

/// The name of the attribute `node`.
fn extract_attr_name(node: &SyntaxNode, src: &Vec<char>) -> (r: Vec<char>)
    requires
        node.wf(src@.len()),
    ensures
        r@ == attr_name(src@, *node),
{
    match node.name_field {
        Some(range) => {
            return slice_chars(src, range.0, range.1);
        },
        None => {},
    }
    let ghost cs = node.children@;
    let mut name: Vec<char> = Vec::new();
    let mut i: usize = 0;
    let mut stopped = false;
    while i < node.children.len() && !stopped
        invariant
            i <= node.children.len(),
            cs == node.children@,
            node.wf(src@.len()),
            !stopped ==> name@ + name_pieces_from(src@, cs, i as int) == name_pieces_from(
                src@,
                cs,
                0,
            ),
            stopped ==> name@ == name_pieces_from(src@, cs, 0),
        decreases node.children.len() - i,
    {
        let c = &node.children[i];
        assert(cs[i as int].wf(src@.len()));
        let ghost before = name@;
        if matches!(c.kind, NodeKind::PropertyIdentifier | NodeKind::Colon | NodeKind::Identifier) {
            push_range(&mut name, src, c.start, c.end);
            assert(name@ + name_pieces_from(src@, cs, i + 1) =~= before + name_pieces_from(
                src@,
                cs,
                i as int,
            ));
        } else if matches!(
            c.kind,
            NodeKind::Equals | NodeKind::JsxExpression | NodeKind::StringLiteral
                | NodeKind::TemplateString | NodeKind::QuotedAttributeValue
        ) {
            stopped = true;
            assert(name@ =~= before + name_pieces_from(src@, cs, i as int));
        }
        i = i + 1;
    }
    if !stopped {
        assert(name@ =~= name@ + name_pieces_from(src@, cs, i as int));
    }
    if name.len() == 0 {
        let raw = slice_chars(src, node.start, node.end);
        name = trim(&before_first_chars(&raw, '='));
    }
    name
}

fn known_prefix_str(k: usize) -> (r: &'static str)
    requires
        k < 20,
    ensures
        r@ == known_prefix(k as int),
{
    match k {
        0 => "data-bind",
        1 => "data-on",
        2 => "data-show",
        3 => "data-text",
        4 => "data-html",
        5 => "data-class",
        6 => "data-attr",
        7 => "data-indicator",
        8 => "data-persist",
        9 => "data-ref",
        10 => "data-store",
        11 => "data-computed",
        12 => "data-effect",
        13 => "data-signals",
        14 => "data-intersects",
        15 => "data-scroll-into-view",
        16 => "data-view-transition",
        17 => "data-header",
        18 => "data-replace-url",
        _ => "data-style",
    }
}

/// Whether `name` is a Datastar attribute name.
pub fn is_data_attr_name(name: &Vec<char>) -> (r: bool)
    ensures
        r == is_data_attr(name@),
{
    let prefix = chars_of("data-");
    if !starts_with_chars(name, &prefix) {
        return false;
    }
    assert(starts_with(name@, "data-"@));
    let mut k: usize = 0;
    while k < 20
        invariant
            k <= 20,
            starts_with(name@, "data-"@),
            forall|j: int| 0 <= j < k ==> !starts_with(name@, #[trigger] known_prefix(j)),
        decreases 20 - k,
    {
        if starts_with_chars(name, &chars_of(known_prefix_str(k))) {
            assert(0 <= k < known_prefix_count() && starts_with(name@, known_prefix(k as int)));
            return true;
        }
        k = k + 1;
    }
    false
}

/// The Datastar attributes of the tag `node`, in order.
fn collect_data_attrs(node: &SyntaxNode, src: &Vec<char>) -> (r: Vec<AttrInfo>)
    requires
        node.wf(src@.len()),
    ensures
        attr_views(r@) == data_attrs(src@, *node),
{
    let mut out: Vec<AttrInfo> = Vec::new();
    let mut i: usize = 0;
    assert(attr_views(out@) + data_attrs_from(src@, *node, 0) =~= data_attrs(src@, *node));
    while i < node.children.len()
        invariant
            i <= node.children.len(),
            node.wf(src@.len()),
            attr_views(out@) + data_attrs_from(src@, *node, i as int) == data_attrs(src@, *node),
        decreases node.children.len() - i,
    {
        let child = &node.children[i];
        assert(node.children@[i as int].wf(src@.len()));
        let ghost before = attr_views(out@);
        if matches!(child.kind, NodeKind::Attribute | NodeKind::JsxAttribute) {
            let name = extract_attr_name(child, src);
            if is_data_attr_name(&name) {
                let value = find_attr_value(&node.children, i, src);
                out.push(AttrInfo { name, value, full_start: child.start });
                assert(attr_views(out@) =~= before.push(out@[out@.len() - 1]@));
                assert(attr_views(out@) + data_attrs_from(src@, *node, i + 1) =~= before
                    + data_attrs_from(src@, *node, i as int));
            }
        }
        i = i + 1;
    }
    assert(attr_views(out@) =~= attr_views(out@) + data_attrs_from(
        src@,
        *node,
        i as int,
    ));
    out
}

fn has_start_in(data: &Vec<AttrInfo>, s: usize) -> (r: bool)
    ensures
        r == has_start(attr_views(data@), s as int),
{
    let mut k: usize = 0;
    while k < data.len()
        invariant
            k <= data.len(),
            forall|j: int| 0 <= j < k ==> (#[trigger] attr_views(data@)[j]).2 != s,
        decreases data.len() - k,
    {
        if data[k].full_start == s {
            assert(attr_views(data@)[k as int].2 == s);
            return true;
        }
        k = k + 1;
    }
    false
}

/// The texts of the other attributes of the tag `node`, in order.
fn collect_non_data_attrs(node: &SyntaxNode, data: &Vec<AttrInfo>, src: &Vec<char>) -> (r: Vec<
    Vec<char>,
>)
    requires
        node.wf(src@.len()),
    ensures
        views(r@) == non_data_attrs_from(src@, *node, attr_views(data@), 0),
{
    let ghost d = attr_views(data@);
    let mut out: Vec<Vec<char>> = Vec::new();
    let mut i: usize = 0;
    assert(views(out@) + non_data_attrs_from(src@, *node, d, 0) =~= non_data_attrs_from(
        src@,
        *node,
        d,
        0,
    ));
    while i < node.children.len()
        invariant
            i <= node.children.len(),
            node.wf(src@.len()),
            d == attr_views(data@),
            views(out@) + non_data_attrs_from(src@, *node, d, i as int) == non_data_attrs_from(
                src@,
                *node,
                d,
                0,
            ),
        decreases node.children.len() - i,
    {
        let child = &node.children[i];
        assert(node.children@[i as int].wf(src@.len()));
        let ghost before = views(out@);
        if matches!(child.kind, NodeKind::Attribute | NodeKind::JsxAttribute | NodeKind::JsxExpression)
            && !has_start_in(
            data,
            child.start,
        ) {
            out.push(slice_chars(src, child.start, child.end));
            assert(views(out@) =~= before.push(out@[out@.len() - 1]@));
            assert(views(out@) + non_data_attrs_from(src@, *node, d, i + 1) =~= before
                + non_data_attrs_from(src@, *node, d, i as int));
        }
        i = i + 1;
    }
    assert(views(out@) =~= views(out@) + non_data_attrs_from(src@, *node, d, i as int));
    out
}

/// The name of the tag `node`.
fn find_tag_name(node: &SyntaxNode, src: &Vec<char>) -> (r: Option<Vec<char>>)
    requires
        node.wf(src@.len()),
    ensures
        opt_view(r) == tag_name_of(src@, *node),
{
    match node.name_field {
        Some(range) => {
            return Some(slice_chars(src, range.0, range.1));
        },
        None => {},
    }
    let mut i: usize = 0;
    while i < node.children.len()
        invariant
            i <= node.children.len(),
            node.wf(src@.len()),
            node.name_field is None,
            tag_name_from(src@, node.children@, 0) == tag_name_from(
                src@,
                node.children@,
                i as int,
            ),
        decreases node.children.len() - i,
    {
        let child = &node.children[i];
        assert(node.children@[i as int].wf(src@.len()));
        if matches!(
            child.kind,
            NodeKind::TagName | NodeKind::JsxTagName | NodeKind::JsxIdentifier
                | NodeKind::Identifier
        ) {
            return Some(slice_chars(src, child.start, child.end));
        }
        i = i + 1;
    }
    None
}

proof fn lemma_data_width_prefix(d: Seq<AttrView>, i: int)
    requires
        0 <= i <= d.len(),
    ensures
        data_width(d.take(i)) <= data_width(d),
    decreases d.len(),
{
    if i < d.len() {
        assert(d.take(i) =~= d.drop_last().take(i));
        lemma_data_width_prefix(d.drop_last(), i);
    } else {
        assert(d.take(i) =~= d);
    }
}

proof fn lemma_non_data_width_prefix(nd: Seq<Seq<char>>, i: int)
    requires
        0 <= i <= nd.len(),
    ensures
        non_data_width(nd.take(i)) <= non_data_width(nd),
    decreases nd.len(),
{
    if i < nd.len() {
        assert(nd.take(i) =~= nd.drop_last().take(i));
        lemma_non_data_width_prefix(nd.drop_last(), i);
    } else {
        assert(nd.take(i) =~= nd);
    }
}

/// Whether some Datastar attribute has a value that needs several lines.
fn any_value_needs_split_in(data: &Vec<AttrInfo>, line_width: usize) -> (r: bool)
    ensures
        r == any_value_needs_split(attr_views(data@), line_width as nat),
{
    let ghost d = attr_views(data@);
    let mut k: usize = 0;
    while k < data.len()
        invariant
            k <= data.len(),
            d == attr_views(data@),
            forall|j: int| 0 <= j < k ==> !value_needs_split((#[trigger] d[j]).1, line_width as nat),
        decreases data.len() - k,
    {
        assert(d[k as int] == data@[k as int]@);
        if value_needs_split_chars(&data[k].value, line_width) {
            assert(value_needs_split(d[k as int].1, line_width as nat));
            return true;
        }
        k = k + 1;
    }
    false
}

/// Whether the tag is wider than `line_width` on one line.
#[verifier::spinoff_prover]
fn one_line_exceeds(
    data: &Vec<AttrInfo>,
    non_data: &Vec<Vec<char>>,
    tag_name: &Vec<char>,
    depth: usize,
    line_width: usize,
) -> (r: bool)
    ensures
        r == (one_line_width(attr_views(data@), views(non_data@), tag_name@, depth as nat)
            > line_width),
{
    let ghost d = attr_views(data@);
    let ghost nd = views(non_data@);
    let ghost total = one_line_width(d, nd, tag_name@, depth as nat);
    if depth > line_width {
        return true;
    }
    let mut rem: usize = line_width - depth;
    if rem < 1 {
        return true;
    }
    rem = rem - 1;
    match crate::text::utf8_len_upto(tag_name, rem) {
        None => {
            return true;
        },
        Some(n) => {
            rem = rem - n;
        },
    }
    let ghost head = depth + 1 + utf8_len(tag_name@);
    let mut i: usize = 0;
    assert(nd.take(0) =~= Seq::<Seq<char>>::empty());
    while i < non_data.len()
        invariant
            i <= non_data.len(),
            nd == views(non_data@),
            d == attr_views(data@),
            total == one_line_width(attr_views(data@), views(non_data@), tag_name@, depth as nat),
            rem as int == line_width - head - non_data_width(nd.take(i as int)),
            total == head + non_data_width(nd) + data_width(d) + 1,
        decreases non_data.len() - i,
    {
        assert(nd.take(i + 1).drop_last() =~= nd.take(i as int));
        assert(nd.take(i + 1).last() == non_data@[i as int]@);
        proof {
            lemma_non_data_width_prefix(nd, i + 1);
        }
        match crate::text::utf8_len_upto(&non_data[i], rem) {
            None => {
                return true;
            },
            Some(n) => {
                if rem - n < 1 {
                    return true;
                }
                rem = rem - n - 1;
            },
        }
        i = i + 1;
    }
    assert(nd.take(non_data.len() as int) =~= nd);
    let ghost head2 = head + non_data_width(nd);
    let mut k: usize = 0;
    assert(d.take(0) =~= Seq::<AttrView>::empty());
    while k < data.len()
        invariant
            k <= data.len(),
            d == attr_views(data@),
            nd == views(non_data@),
            total == one_line_width(attr_views(data@), views(non_data@), tag_name@, depth as nat),
            rem as int == line_width - head2 - data_width(d.take(k as int)),
            total == head2 + data_width(d) + 1,
        decreases data.len() - k,
    {
        assert(d.take(k + 1).drop_last() =~= d.take(k as int));
        assert(d.take(k + 1).last() == data@[k as int]@);
        proof {
            lemma_data_width_prefix(d, k + 1);
        }
        let a = &data[k];
        if rem < 1 {
            return true;
        }
        rem = rem - 1;
        match crate::text::utf8_len_upto(&a.name, rem) {
            None => {
                return true;
            },
            Some(n) => {
                rem = rem - n;
            },
        }
        match &a.value {
            Some(v) => {
                if rem < 1 {
                    return true;
                }
                rem = rem - 1;
                match crate::text::utf8_len_upto(&trim(v), rem) {
                    None => {
                        return true;
                    },
                    Some(n) => {
                        rem = rem - n;
                    },
                }
            },
            None => {},
        }
        k = k + 1;
    }
    assert(d.take(data.len() as int) =~= d);
    rem < 1
}

/// Whether the tag is split over several lines.
fn should_split(
    data: &Vec<AttrInfo>,
    non_data: &Vec<Vec<char>>,
    tag_name: &Vec<char>,
    depth: usize,
    line_width: usize,
) -> (r: bool)
    ensures
        r == should_split_tag(
            attr_views(data@),
            views(non_data@),
            tag_name@,
            depth as nat,
            line_width as nat,
        ),
{
    if any_value_needs_split_in(data, line_width) {
        return true;
    }
    if data.len() < 2 {
        return false;
    }
    one_line_exceeds(data, non_data, tag_name, depth, line_width)
}

pub open spec fn rep_view(r: Option<(usize, usize, Vec<char>)>) -> Option<(int, int, Seq<char>)> {
    match r {
        Some(t) => Some((t.0 as int, t.1 as int, t.2@)),
        None => None,
    }
}

/// Writes ` a` for each attribute text `a`.
fn write_non_data(p: &mut Printer, non_data: &Vec<Vec<char>>)
    ensures
        final(p).indent_text() == old(p).indent_text(),
        final(p).text() == old(p).text() + non_data_text(views(non_data@)),
{
    let ghost nd = views(non_data@);
    let mut i: usize = 0;
    assert(old(p).text() + non_data_text(nd.take(0)) =~= old(p).text());
    while i < non_data.len()
        invariant
            i <= non_data.len(),
            nd == views(non_data@),
            p.indent_text() == old(p).indent_text(),
            p.text() == old(p).text() + non_data_text(nd.take(i as int)),
        decreases non_data.len() - i,
    {
        assert(nd.take(i + 1).drop_last() =~= nd.take(i as int));
        assert(nd.take(i + 1).last() == non_data@[i as int]@);
        p.write(&lit1(' '));
        p.write(&non_data[i]);
        i = i + 1;
        assert(p.text() =~= old(p).text() + non_data_text(nd.take(i as int)));
    }
    assert(nd.take(non_data.len() as int) =~= nd);
}

/// Writes each Datastar attribute on a line of its own at `depth`.
fn write_data(p: &mut Printer, data: &Vec<AttrInfo>, depth: usize, line_width: usize)
    requires
        depth < usize::MAX,
    ensures
        final(p).indent_text() == old(p).indent_text(),
        final(p).text() == old(p).text() + data_text(
            attr_views(data@),
            old(p).indent_text(),
            depth as nat,
            line_width as nat,
        ),
{
    let ghost d = attr_views(data@);
    let ghost indent = p.indent_text();
    let mut k: usize = 0;
    assert(old(p).text() + data_text(d.take(0), indent, depth as nat, line_width as nat)
        =~= old(p).text());
    while k < data.len()
        invariant
            k <= data.len(),
            d == attr_views(data@),
            depth < usize::MAX,
            p.indent_text() == indent,
            p.text() == old(p).text() + data_text(
                d.take(k as int),
                indent,
                depth as nat,
                line_width as nat,
            ),
        decreases data.len() - k,
    {
        assert(d.take(k + 1).drop_last() =~= d.take(k as int));
        assert(d.take(k + 1).last() == data@[k as int]@);
        assert(d[k as int] == data@[k as int]@);
        let ghost before = p.text();
        let a = &data[k];
        p.newline(depth);
        p.write(&a.name);
        match &a.value {
            Some(v) => {
                p.write(&lit1('='));
                format_value(p, v, depth, line_width);
                assert(p.text() =~= before + newline_text(indent, depth as nat) + a.name@ + (seq![
                    '=',
                ] + formatted_value(v@, indent, depth as nat, line_width as nat)));
            },
            None => {
                assert(p.text() =~= before + newline_text(indent, depth as nat) + a.name@
                    + Seq::<char>::empty());
            },
        }
        k = k + 1;
        assert(p.text() =~= old(p).text() + data_text(
            d.take(k as int),
            indent,
            depth as nat,
            line_width as nat,
        ));
    }
    assert(d.take(data.len() as int) =~= d);
}

fn any_quotes_overlap_in(data: &Vec<AttrInfo>) -> (r: bool)
    ensures
        r == any_quotes_overlap(attr_views(data@)),
{
    let ghost d = attr_views(data@);
    let mut k: usize = 0;
    while k < data.len()
        invariant
            k <= data.len(),
            d == attr_views(data@),
            forall|j: int|
                0 <= j < k ==> !((#[trigger] d[j]).1 matches Some(v) && quotes_overlap(
                    trimmed(v),
                )),
        decreases data.len() - k,
    {
        assert(d[k as int] == data@[k as int]@);
        match &data[k].value {
            Some(v) => {
                if quotes_overlap_chars(&trim(v)) {
                    return true;
                }
            },
            None => {},
        }
        k = k + 1;
    }
    false
}

/// The reformatted text of the tag `node` and the range it replaces, where
/// the tag is split.
pub fn format_tag(node: &SyntaxNode, src: &Vec<char>, indent: &Vec<char>, line_width: usize) -> (r:
    Option<(usize, usize, Vec<char>)>)
    requires
        node.wf(src@.len()),
        src@.len() + 2 <= usize::MAX,
    ensures
        rep_view(r) == formatted_tag(src@, *node, indent@, line_width as nat),
{
    let data = collect_data_attrs(node, src);
    if data.len() == 0 {
        return None;
    }
    if any_quotes_overlap_in(&data) {
        return None;
    }
    let tag_name = match find_tag_name(node, src) {
        Some(t) => t,
        None => Vec::new(),
    };
    let non_data = collect_non_data_attrs(node, &data, src);
    let line_start = crate::text::find_line_start(node.start, src);
    let depth = crate::text::count_tabs_in(src, line_start, node.start);
    let self_closing = ends_with_chars(&slice_chars(src, node.start, node.end), &lit2('/', '>'));
    if !should_split(&data, &non_data, &tag_name, depth, line_width) {
        return None;
    }
    let own_line = crate::text::all_ascii_whitespace_in(src, line_start, node.start);
    let start = if own_line {
        line_start
    } else {
        node.start
    };
    let mut p = Printer::new(indent, if own_line {
        depth
    } else {
        0
    });
    p.write(&lit1('<'));
    p.write(&tag_name);
    write_non_data(&mut p, &non_data);
    write_data(&mut p, &data, depth + 1, line_width);
    if self_closing {
        p.write(&crate::text::lit3(' ', '/', '>'));
    } else {
        p.write(&lit1('>'));
    }
    let text = p.finish();
    Some((start, node.end, text))
}

} // verus!
