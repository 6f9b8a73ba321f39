//! The syntax tree that the formatter reads, and its construction from the
//! tree that tree-sitter builds.
use vstd::prelude::*;
use crate::text::{char_width, char_width_of, chars_of, same_chars};

verus! {

#[verifier::external_type_specification]
#[verifier::external_body]
pub struct ExTree(tree_sitter::Tree);

#[verifier::external_type_specification]
#[verifier::external_body]
pub struct ExNode<'tree>(tree_sitter::Node<'tree>);

/// The kinds of syntax node that the formatter tells apart; every other kind
/// is `Other`.
#[derive(Clone, Copy, Debug)]
pub enum NodeKind {
    StartTag,
    SelfClosingTag,
    JsxOpeningElement,
    JsxSelfClosingElement,
    Attribute,
    JsxAttribute,
    TagName,
    JsxTagName,
    JsxIdentifier,
    Identifier,
    PropertyIdentifier,
    Colon,
    Equals,
    JsxExpression,
    StringLiteral,
    TemplateString,
    QuotedAttributeValue,
    AttributeValue,
    Other,
}

/// A node of a syntax tree over a source text: its kind, the character range
/// `start..end` that it spans, the range of its child in the field `name`
/// where it has one, and its children in order.
#[derive(Debug)]
pub struct SyntaxNode {
    pub kind: NodeKind,
    pub start: usize,
    pub end: usize,
    pub name_field: Option<(usize, usize)>,
    pub children: Vec<SyntaxNode>,
}

impl SyntaxNode {
    /// All ranges in the tree lie within a text of `len` characters.
    pub open spec fn wf(self, len: nat) -> bool
        decreases self,
    {
        &&& self.start <= self.end <= len
        &&& (self.name_field matches Some(r) ==> r.0 <= r.1 <= len)
        &&& forall|i: int|
            0 <= i < self.children@.len() ==> (#[trigger] self.children@[i]).wf(len)
    }
}

/// The kind that tree-sitter's kind name `name` stands for.
pub open spec fn kind_of_name(name: Seq<char>) -> NodeKind {
    if name == "start_tag"@ {
        NodeKind::StartTag
    } else if name == "self_closing_tag"@ {
        NodeKind::SelfClosingTag
    } else if name == "jsx_opening_element"@ {
        NodeKind::JsxOpeningElement
    } else if name == "jsx_self_closing_element"@ {
        NodeKind::JsxSelfClosingElement
    } else if name == "attribute"@ {
        NodeKind::Attribute
    } else if name == "jsx_attribute"@ {
        NodeKind::JsxAttribute
    } else if name == "tag_name"@ {
        NodeKind::TagName
    } else if name == "jsx_tag_name"@ {
        NodeKind::JsxTagName
    } else if name == "jsx_identifier"@ {
        NodeKind::JsxIdentifier
    } else if name == "identifier"@ {
        NodeKind::Identifier
    } else if name == "property_identifier"@ {
        NodeKind::PropertyIdentifier
    } else if name == ":"@ {
        NodeKind::Colon
    } else if name == "="@ {
        NodeKind::Equals
    } else if name == "jsx_expression"@ {
        NodeKind::JsxExpression
    } else if name == "string"@ {
        NodeKind::StringLiteral
    } else if name == "template_string"@ {
        NodeKind::TemplateString
    } else if name == "quoted_attribute_value"@ {
        NodeKind::QuotedAttributeValue
    } else if name == "attribute_value"@ {
        NodeKind::AttributeValue
    } else {
        NodeKind::Other
    }
}

fn is_name(name: &Vec<char>, literal: &str) -> (r: bool)
    ensures
        r == (name@ == literal@),
{
    same_chars(name, &chars_of(literal))
}

pub fn kind_from_name(kind: &str) -> (k: NodeKind)
    ensures
        k == kind_of_name(kind@),
{
    let name = chars_of(kind);
    if is_name(&name, "start_tag") {
        NodeKind::StartTag
    } else if is_name(&name, "self_closing_tag") {
        NodeKind::SelfClosingTag
    } else if is_name(&name, "jsx_opening_element") {
        NodeKind::JsxOpeningElement
    } else if is_name(&name, "jsx_self_closing_element") {
        NodeKind::JsxSelfClosingElement
    } else if is_name(&name, "attribute") {
        NodeKind::Attribute
    } else if is_name(&name, "jsx_attribute") {
        NodeKind::JsxAttribute
    } else if is_name(&name, "tag_name") {
        NodeKind::TagName
    } else if is_name(&name, "jsx_tag_name") {
        NodeKind::JsxTagName
    } else if is_name(&name, "jsx_identifier") {
        NodeKind::JsxIdentifier
    } else if is_name(&name, "identifier") {
        NodeKind::Identifier
    } else if is_name(&name, "property_identifier") {
        NodeKind::PropertyIdentifier
    } else if is_name(&name, ":") {
        NodeKind::Colon
    } else if is_name(&name, "=") {
        NodeKind::Equals
    } else if is_name(&name, "jsx_expression") {
        NodeKind::JsxExpression
    } else if is_name(&name, "string") {
        NodeKind::StringLiteral
    } else if is_name(&name, "template_string") {
        NodeKind::TemplateString
    } else if is_name(&name, "quoted_attribute_value") {
        NodeKind::QuotedAttributeValue
    } else if is_name(&name, "attribute_value") {
        NodeKind::AttributeValue
    } else {
        NodeKind::Other
    }
}

/// Calls `tree_sitter::Tree::root_node`. A node is opaque here, so nothing is
/// stated of the one returned.
#[verifier::external_body]
fn ts_root_node(tree: &tree_sitter::Tree) -> tree_sitter::Node<'_> {
    tree.root_node()
}

/// Calls `tree_sitter::Node::kind`: the grammar's name for the node's kind.
/// The name is not stated, since the node it describes is opaque here;
/// `kind_from_name` turns whatever comes back into a `NodeKind`.
#[verifier::external_body]
fn ts_kind(node: &tree_sitter::Node) -> &'static str {
    node.kind()
}

/// Calls `tree_sitter::Node::start_byte`: the byte offset where the node
/// starts. The offset is not stated, since the node is opaque here; callers
/// map any offset into the text.
#[verifier::external_body]
fn ts_start_byte(node: &tree_sitter::Node) -> usize {
    node.start_byte()
}

/// Calls `tree_sitter::Node::end_byte`: the byte offset where the node ends.
/// The offset is not stated, since the node is opaque here; callers map any
/// offset into the text.
#[verifier::external_body]
fn ts_end_byte(node: &tree_sitter::Node) -> usize {
    node.end_byte()
}

/// Calls `tree_sitter::Node::child_count`. The count is not stated, since the
/// node is opaque here.
#[verifier::external_body]
fn ts_child_count(node: &tree_sitter::Node) -> usize {
    node.child_count()
}

/// Calls `tree_sitter::Node::child`: the child at index `i`, if there is one.
/// Nothing is stated of it, since nodes are opaque here.
#[verifier::external_body]
fn ts_child<'t>(node: &tree_sitter::Node<'t>, i: usize) -> Option<tree_sitter::Node<'t>> {
    node.child(i)
}

/// Calls `tree_sitter::Node::child_by_field_name`: the child in the field
/// `field`, if there is one. Nothing is stated of it, since nodes are opaque
/// here.
#[verifier::external_body]
fn ts_child_by_field_name<'t>(node: &tree_sitter::Node<'t>, field: &str) -> Option<
    tree_sitter::Node<'t>,
> {
    node.child_by_field_name(field)
}

/// Calls `tree_sitter::Node::descendant_count`. The count is not stated, since
/// the node is opaque here; it only bounds how many nodes are converted.
#[verifier::external_body]
fn ts_descendant_count(node: &tree_sitter::Node) -> usize {
    node.descendant_count()
}

/// For each byte offset into the UTF-8 encoding of `source`, the index of the
/// character that holds that byte.
pub open spec fn char_index_of_bytes(source: Seq<char>) -> Seq<usize>
    decreases source.len(),
{
    if source.len() == 0 {
        Seq::empty()
    } else {
        char_index_of_bytes(source.drop_last()) + Seq::new(
            char_width(source.last()),
            |k: int| (source.len() - 1) as usize,
        )
    }
}

/// The table `char_index_of_bytes(source)`.
pub fn byte_to_char_table(source: &Vec<char>) -> (t: Vec<usize>)
    ensures
        t@ == char_index_of_bytes(source@),
        forall|b: int| 0 <= b < t@.len() ==> t@[b] < source@.len(),
{
    let mut t: Vec<usize> = Vec::new();
    let mut i: usize = 0;
    while i < source.len()
        invariant
            i <= source.len(),
            t@ == char_index_of_bytes(source@.take(i as int)),
            forall|b: int| 0 <= b < t@.len() ==> t@[b] < i,
        decreases source.len() - i,
    {
        assert(source@.take(i + 1).drop_last() =~= source@.take(i as int));
        let w = char_width_of(source[i]);
        let ghost before = t@;
        let mut k: usize = 0;
        while k < w
            invariant
                k <= w,
                w == char_width(source@[i as int]),
                i < source.len(),
                t@ == before + Seq::new(k as nat, |j: int| i),
                forall|b: int| 0 <= b < before.len() ==> before[b] < i,
            decreases w - k,
        {
            t.push(i);
            k = k + 1;
            assert(t@ =~= before + Seq::new(k as nat, |j: int| i));
        }
        i = i + 1;
        assert(t@ =~= char_index_of_bytes(source@.take(i as int)));
    }
    assert(source@.take(source.len() as int) =~= source@);
    t
}

/// The character position of byte offset `b`: the character that holds it,
/// or the end of the text where `b` lies at or beyond the last byte.
pub open spec fn char_position(table: Seq<usize>, n_chars: nat, b: int) -> nat {
    if 0 <= b < table.len() {
        table[b] as nat
    } else {
        n_chars
    }
}

fn char_position_of(table: &Vec<usize>, n_chars: usize, b: usize) -> (p: usize)
    requires
        forall|k: int| 0 <= k < table@.len() ==> table@[k] < n_chars,
    ensures
        p == char_position(table@, n_chars as nat, b as int),
        p <= n_chars,
{
    if b < table.len() {
        table[b]
    } else {
        n_chars
    }
}

/// The character range for the byte range `sb..eb`: the positions of both
/// ends, with an end before the start moved up to the start.
pub open spec fn char_span(table: Seq<usize>, n_chars: nat, sb: int, eb: int) -> (nat, nat) {
    let s = char_position(table, n_chars, sb);
    let e = char_position(table, n_chars, eb);
    if e < s {
        (s, s)
    } else {
        (s, e)
    }
}

/// `r` is the character range, under `table`, of some byte range.
pub open spec fn is_char_span(table: Seq<usize>, n_chars: nat, r: (usize, usize)) -> bool {
    exists|sb: int, eb: int| #[trigger] char_span(table, n_chars, sb, eb) == (r.0 as nat, r.1 as nat)
}

/// Every range in the tree, of a node or of its `name` field, is the
/// character range under `table` of a byte range.
pub open spec fn spans_from_table(node: SyntaxNode, table: Seq<usize>, n_chars: nat) -> bool
    decreases node,
{
    &&& is_char_span(table, n_chars, (node.start, node.end))
    &&& (node.name_field matches Some(r) ==> is_char_span(table, n_chars, r))
    &&& forall|i: int|
        0 <= i < node.children@.len() ==> spans_from_table(
            #[trigger] node.children@[i],
            table,
            n_chars,
        )
}

/// The number of nodes in the tree `node`.
pub open spec fn node_count(node: SyntaxNode) -> nat
    decreases node, 1nat, 0int,
{
    1 + children_count(node, node.children@.len() as int)
}

/// The number of nodes in the trees of the first `k` children of `node`.
pub open spec fn children_count(node: SyntaxNode, k: int) -> nat
    decreases node, 0nat, k,
{
    if k <= 0 || k > node.children@.len() {
        0
    } else {
        children_count(node, k - 1) + node_count(node.children@[k - 1])
    }
}

/// The number of nodes in the trees `s`.
pub open spec fn total_count(s: Seq<SyntaxNode>) -> nat
    decreases s.len(),
{
    if s.len() == 0 {
        0
    } else {
        total_count(s.drop_last()) + node_count(s.last())
    }
}

proof fn lemma_children_count(node: SyntaxNode, k: int)
    requires
        0 <= k <= node.children@.len(),
    ensures
        children_count(node, k) == total_count(node.children@.take(k)),
    decreases k,
{
    if k > 0 {
        lemma_children_count(node, k - 1);
        assert(node.children@.take(k).drop_last() =~= node.children@.take(k - 1));
        assert(node.children@.take(k).last() == node.children@[k - 1]);
    } else {
        assert(node.children@.take(k) =~= Seq::<SyntaxNode>::empty());
    }
}

/// The character range of a tree-sitter node: that of its byte range.
fn char_range(node: &tree_sitter::Node, table: &Vec<usize>, n_chars: usize) -> (r: (usize, usize))
    requires
        forall|k: int| 0 <= k < table@.len() ==> table@[k] < n_chars,
    ensures
        r.0 <= r.1 <= n_chars,
        is_char_span(table@, n_chars as nat, r),
{
    let sb = ts_start_byte(node);
    let eb = ts_end_byte(node);
    let start = char_position_of(table, n_chars, sb);
    let end = char_position_of(table, n_chars, eb);
    let r = if end < start {
        (start, start)
    } else {
        (start, end)
    };
    assert(char_span(table@, n_chars as nat, sb as int, eb as int) == (r.0 as nat, r.1 as nat));
    r
}

/// Converts `node` and at most `budget - 1` of its descendants, returning the
/// converted tree and the budget that is left: `budget` less the number of
/// nodes converted.
fn convert_node(node: &tree_sitter::Node, table: &Vec<usize>, n_chars: usize, budget: usize) -> (r:
    (SyntaxNode, usize))
    requires
        budget >= 1,
        forall|k: int| 0 <= k < table@.len() ==> table@[k] < n_chars,
    ensures
        r.0.wf(n_chars as nat),
        spans_from_table(r.0, table@, n_chars as nat),
        r.1 + node_count(r.0) == budget,
    decreases budget,
{
    let kind = kind_from_name(ts_kind(node));
    let (start, end) = char_range(node, table, n_chars);
    let name_field = match ts_child_by_field_name(node, "name") {
        Some(n) => Some(char_range(&n, table, n_chars)),
        None => None,
    };
    let count = ts_child_count(node);
    let mut remaining: usize = budget - 1;
    let mut children: Vec<SyntaxNode> = Vec::new();
    let mut i: usize = 0;
    while i < count && remaining > 0
        invariant
            remaining < budget,
            remaining + total_count(children@) + 1 == budget,
            forall|k: int| 0 <= k < table@.len() ==> table@[k] < n_chars,
            forall|j: int| 0 <= j < children@.len() ==> (#[trigger] children@[j]).wf(n_chars as nat),
            forall|j: int|
                0 <= j < children@.len() ==> spans_from_table(
                    #[trigger] children@[j],
                    table@,
                    n_chars as nat,
                ),
        decreases count - i,
    {
        match ts_child(node, i) {
            Some(c) => {
                let (child, rest) = convert_node(&c, table, n_chars, remaining);
                let ghost before = children@;
                children.push(child);
                assert(children@.drop_last() =~= before);
                assert(children@.last() == child);
                remaining = rest;
            },
            None => {},
        }
        i = i + 1;
    }
    let r = SyntaxNode { kind, start, end, name_field, children };
    proof {
        lemma_children_count(r, r.children@.len() as int);
        assert(r.children@.take(r.children@.len() as int) =~= r.children@);
    }
    (r, remaining)
}

/// The syntax tree of `source` that tree-sitter built as `tree`, over character
/// positions: every range in it is the character range of a byte range of the
/// UTF-8 encoding of `source`. Every node of `tree` is converted as long as the
/// tree holds no more nodes than its root reports as descendants.
pub fn syntax_tree(tree: &tree_sitter::Tree, source: &Vec<char>) -> (root: SyntaxNode)
    ensures
        root.wf(source@.len()),
        spans_from_table(root, char_index_of_bytes(source@), source@.len()),
{
    let table = byte_to_char_table(source);
    let node = ts_root_node(tree);
    let count = ts_descendant_count(&node);
    let budget = if count == 0 {
        1
    } else {
        count
    };
    convert_node(&node, &table, source.len(), budget).0
}

} // verus!
