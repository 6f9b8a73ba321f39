//! What the formatter knows by name: the Datastar attribute prefixes, and the
//! kinds of syntax node that tree-sitter's grammars name.
use vstd::prelude::*;
use crate::syntax::{kind_of_name, NodeKind, SyntaxNode};
use crate::tags::{
    is_attribute_kind, is_data_attr, is_tag_kind, known_prefix, known_prefix_count, node_text,
    value_text,
};
use crate::text::starts_with;

verus! {

proof fn lemma_starts_with_trans(s: Seq<char>, p: Seq<char>, q: Seq<char>)
    requires
        starts_with(s, p),
        starts_with(p, q),
    ensures
        starts_with(s, q),
{
    assert(s.subrange(0, q.len() as int) =~= p.subrange(0, q.len() as int)) by {
        assert forall|i: int| 0 <= i < q.len() implies s.subrange(0, q.len() as int)[i]
            == p.subrange(0, q.len() as int)[i] by {
            assert(s.subrange(0, p.len() as int)[i] == s[i]);
        }
    }
}

proof fn lemma_known_prefix_is_data(name: Seq<char>, k: int)
    requires
        0 <= k < known_prefix_count(),
        starts_with(name, known_prefix(k)),
        starts_with(known_prefix(k), "data-"@),
    ensures
        is_data_attr(name),
{
    lemma_starts_with_trans(name, known_prefix(k), "data-"@);
}

/// A name is a Datastar attribute name exactly when it starts with one of
/// `data-bind`, `data-on`, `data-show`, `data-text`, `data-html`, `data-class`,
/// `data-attr`, `data-indicator`, `data-persist`, `data-ref`, `data-store`,
/// `data-computed`, `data-effect`, `data-signals`, `data-intersects`,
/// `data-scroll-into-view`, `data-view-transition`, `data-header`,
/// `data-replace-url` or `data-style`.
pub proof fn lemma_datastar_attribute_names(name: Seq<char>)
    ensures
        starts_with(name, "data-bind"@) ==> is_data_attr(name),
        starts_with(name, "data-on"@) ==> is_data_attr(name),
        starts_with(name, "data-show"@) ==> is_data_attr(name),
        starts_with(name, "data-text"@) ==> is_data_attr(name),
        starts_with(name, "data-html"@) ==> is_data_attr(name),
        starts_with(name, "data-class"@) ==> is_data_attr(name),
        starts_with(name, "data-attr"@) ==> is_data_attr(name),
        starts_with(name, "data-indicator"@) ==> is_data_attr(name),
        starts_with(name, "data-persist"@) ==> is_data_attr(name),
        starts_with(name, "data-ref"@) ==> is_data_attr(name),
        starts_with(name, "data-store"@) ==> is_data_attr(name),
        starts_with(name, "data-computed"@) ==> is_data_attr(name),
        starts_with(name, "data-effect"@) ==> is_data_attr(name),
        starts_with(name, "data-signals"@) ==> is_data_attr(name),
        starts_with(name, "data-intersects"@) ==> is_data_attr(name),
        starts_with(name, "data-scroll-into-view"@) ==> is_data_attr(name),
        starts_with(name, "data-view-transition"@) ==> is_data_attr(name),
        starts_with(name, "data-header"@) ==> is_data_attr(name),
        starts_with(name, "data-replace-url"@) ==> is_data_attr(name),
        starts_with(name, "data-style"@) ==> is_data_attr(name),
        is_data_attr(name) ==> (starts_with(name, "data-bind"@) || starts_with(name, "data-on"@) || starts_with(name, "data-show"@) || starts_with(name, "data-text"@) || starts_with(name, "data-html"@) || starts_with(name, "data-class"@) || starts_with(name, "data-attr"@) || starts_with(name, "data-indicator"@) || starts_with(name, "data-persist"@) || starts_with(name, "data-ref"@) || starts_with(name, "data-store"@) || starts_with(name, "data-computed"@) || starts_with(name, "data-effect"@) || starts_with(name, "data-signals"@) || starts_with(name, "data-intersects"@) || starts_with(name, "data-scroll-into-view"@) || starts_with(name, "data-view-transition"@) || starts_with(name, "data-header"@) || starts_with(name, "data-replace-url"@) || starts_with(name, "data-style"@)),
{
    reveal_strlit("data-");
    reveal_strlit("data-bind");
    if starts_with(name, "data-bind"@) {
        assert("data-bind"@.subrange(0, 5) =~= "data-"@);
        lemma_known_prefix_is_data(name, 0);
    }
    reveal_strlit("data-on");
    if starts_with(name, "data-on"@) {
        assert("data-on"@.subrange(0, 5) =~= "data-"@);
        lemma_known_prefix_is_data(name, 1);
    }
    reveal_strlit("data-show");
    if starts_with(name, "data-show"@) {
        assert("data-show"@.subrange(0, 5) =~= "data-"@);
        lemma_known_prefix_is_data(name, 2);
    }
    reveal_strlit("data-text");
    if starts_with(name, "data-text"@) {
        assert("data-text"@.subrange(0, 5) =~= "data-"@);
        lemma_known_prefix_is_data(name, 3);
    }
    reveal_strlit("data-html");
    if starts_with(name, "data-html"@) {
        assert("data-html"@.subrange(0, 5) =~= "data-"@);
        lemma_known_prefix_is_data(name, 4);
    }
    reveal_strlit("data-class");
    if starts_with(name, "data-class"@) {
        assert("data-class"@.subrange(0, 5) =~= "data-"@);
        lemma_known_prefix_is_data(name, 5);
    }
    reveal_strlit("data-attr");
    if starts_with(name, "data-attr"@) {
        assert("data-attr"@.subrange(0, 5) =~= "data-"@);
        lemma_known_prefix_is_data(name, 6);
    }
    reveal_strlit("data-indicator");
    if starts_with(name, "data-indicator"@) {
        assert("data-indicator"@.subrange(0, 5) =~= "data-"@);
        lemma_known_prefix_is_data(name, 7);
    }
    reveal_strlit("data-persist");
    if starts_with(name, "data-persist"@) {
        assert("data-persist"@.subrange(0, 5) =~= "data-"@);
        lemma_known_prefix_is_data(name, 8);
    }
    reveal_strlit("data-ref");
    if starts_with(name, "data-ref"@) {
        assert("data-ref"@.subrange(0, 5) =~= "data-"@);
        lemma_known_prefix_is_data(name, 9);
    }
    reveal_strlit("data-store");
    if starts_with(name, "data-store"@) {
        assert("data-store"@.subrange(0, 5) =~= "data-"@);
        lemma_known_prefix_is_data(name, 10);
    }
    reveal_strlit("data-computed");
    if starts_with(name, "data-computed"@) {
        assert("data-computed"@.subrange(0, 5) =~= "data-"@);
        lemma_known_prefix_is_data(name, 11);
    }
    reveal_strlit("data-effect");
    if starts_with(name, "data-effect"@) {
        assert("data-effect"@.subrange(0, 5) =~= "data-"@);
        lemma_known_prefix_is_data(name, 12);
    }
    reveal_strlit("data-signals");
    if starts_with(name, "data-signals"@) {
        assert("data-signals"@.subrange(0, 5) =~= "data-"@);
        lemma_known_prefix_is_data(name, 13);
    }
    reveal_strlit("data-intersects");
    if starts_with(name, "data-intersects"@) {
        assert("data-intersects"@.subrange(0, 5) =~= "data-"@);
        lemma_known_prefix_is_data(name, 14);
    }
    reveal_strlit("data-scroll-into-view");
    if starts_with(name, "data-scroll-into-view"@) {
        assert("data-scroll-into-view"@.subrange(0, 5) =~= "data-"@);
        lemma_known_prefix_is_data(name, 15);
    }
    reveal_strlit("data-view-transition");
    if starts_with(name, "data-view-transition"@) {
        assert("data-view-transition"@.subrange(0, 5) =~= "data-"@);
        lemma_known_prefix_is_data(name, 16);
    }
    reveal_strlit("data-header");
    if starts_with(name, "data-header"@) {
        assert("data-header"@.subrange(0, 5) =~= "data-"@);
        lemma_known_prefix_is_data(name, 17);
    }
    reveal_strlit("data-replace-url");
    if starts_with(name, "data-replace-url"@) {
        assert("data-replace-url"@.subrange(0, 5) =~= "data-"@);
        lemma_known_prefix_is_data(name, 18);
    }
    reveal_strlit("data-style");
    if starts_with(name, "data-style"@) {
        assert("data-style"@.subrange(0, 5) =~= "data-"@);
        lemma_known_prefix_is_data(name, 19);
    }
}

proof fn lemma_kind_name_0()
    ensures
        kind_of_name("start_tag"@) == NodeKind::StartTag,
{
    reveal_strlit("start_tag");
}

proof fn lemma_kind_name_1()
    ensures
        kind_of_name("self_closing_tag"@) == NodeKind::SelfClosingTag,
{
    reveal_strlit("self_closing_tag");
    reveal_strlit("start_tag");
    assert("start_tag"@.len() != "self_closing_tag"@.len());
}

proof fn lemma_kind_name_2()
    ensures
        kind_of_name("jsx_opening_element"@) == NodeKind::JsxOpeningElement,
{
    reveal_strlit("jsx_opening_element");
    reveal_strlit("start_tag");
    assert("start_tag"@.len() != "jsx_opening_element"@.len());
    reveal_strlit("self_closing_tag");
    assert("self_closing_tag"@.len() != "jsx_opening_element"@.len());
}

proof fn lemma_kind_name_3()
    ensures
        kind_of_name("jsx_self_closing_element"@) == NodeKind::JsxSelfClosingElement,
{
    reveal_strlit("jsx_self_closing_element");
    reveal_strlit("start_tag");
    assert("start_tag"@.len() != "jsx_self_closing_element"@.len());
    reveal_strlit("self_closing_tag");
    assert("self_closing_tag"@.len() != "jsx_self_closing_element"@.len());
    reveal_strlit("jsx_opening_element");
    assert("jsx_opening_element"@.len() != "jsx_self_closing_element"@.len());
}

proof fn lemma_kind_name_4()
    ensures
        kind_of_name("attribute"@) == NodeKind::Attribute,
{
    reveal_strlit("attribute");
    reveal_strlit("start_tag");
    assert("start_tag"@[0] != "attribute"@[0]);
    reveal_strlit("self_closing_tag");
    assert("self_closing_tag"@.len() != "attribute"@.len());
    reveal_strlit("jsx_opening_element");
    assert("jsx_opening_element"@.len() != "attribute"@.len());
    reveal_strlit("jsx_self_closing_element");
    assert("jsx_self_closing_element"@.len() != "attribute"@.len());
}

proof fn lemma_kind_name_5()
    ensures
        kind_of_name("jsx_attribute"@) == NodeKind::JsxAttribute,
{
    reveal_strlit("jsx_attribute");
    reveal_strlit("start_tag");
    assert("start_tag"@.len() != "jsx_attribute"@.len());
    reveal_strlit("self_closing_tag");
    assert("self_closing_tag"@.len() != "jsx_attribute"@.len());
    reveal_strlit("jsx_opening_element");
    assert("jsx_opening_element"@.len() != "jsx_attribute"@.len());
    reveal_strlit("jsx_self_closing_element");
    assert("jsx_self_closing_element"@.len() != "jsx_attribute"@.len());
    reveal_strlit("attribute");
    assert("attribute"@.len() != "jsx_attribute"@.len());
}

proof fn lemma_kind_name_6()
    ensures
        kind_of_name("tag_name"@) == NodeKind::TagName,
{
    reveal_strlit("tag_name");
    reveal_strlit("start_tag");
    assert("start_tag"@.len() != "tag_name"@.len());
    reveal_strlit("self_closing_tag");
    assert("self_closing_tag"@.len() != "tag_name"@.len());
    reveal_strlit("jsx_opening_element");
    assert("jsx_opening_element"@.len() != "tag_name"@.len());
    reveal_strlit("jsx_self_closing_element");
    assert("jsx_self_closing_element"@.len() != "tag_name"@.len());
    reveal_strlit("attribute");
    assert("attribute"@.len() != "tag_name"@.len());
    reveal_strlit("jsx_attribute");
    assert("jsx_attribute"@.len() != "tag_name"@.len());
}

proof fn lemma_kind_name_7()
    ensures
        kind_of_name("jsx_tag_name"@) == NodeKind::JsxTagName,
{
    reveal_strlit("jsx_tag_name");
    reveal_strlit("start_tag");
    assert("start_tag"@.len() != "jsx_tag_name"@.len());
    reveal_strlit("self_closing_tag");
    assert("self_closing_tag"@.len() != "jsx_tag_name"@.len());
    reveal_strlit("jsx_opening_element");
    assert("jsx_opening_element"@.len() != "jsx_tag_name"@.len());
    reveal_strlit("jsx_self_closing_element");
    assert("jsx_self_closing_element"@.len() != "jsx_tag_name"@.len());
    reveal_strlit("attribute");
    assert("attribute"@.len() != "jsx_tag_name"@.len());
    reveal_strlit("jsx_attribute");
    assert("jsx_attribute"@.len() != "jsx_tag_name"@.len());
    reveal_strlit("tag_name");
    assert("tag_name"@.len() != "jsx_tag_name"@.len());
}

proof fn lemma_kind_name_8()
    ensures
        kind_of_name("jsx_identifier"@) == NodeKind::JsxIdentifier,
{
    reveal_strlit("jsx_identifier");
    reveal_strlit("start_tag");
    assert("start_tag"@.len() != "jsx_identifier"@.len());
    reveal_strlit("self_closing_tag");
    assert("self_closing_tag"@.len() != "jsx_identifier"@.len());
    reveal_strlit("jsx_opening_element");
    assert("jsx_opening_element"@.len() != "jsx_identifier"@.len());
    reveal_strlit("jsx_self_closing_element");
    assert("jsx_self_closing_element"@.len() != "jsx_identifier"@.len());
    reveal_strlit("attribute");
    assert("attribute"@.len() != "jsx_identifier"@.len());
    reveal_strlit("jsx_attribute");
    assert("jsx_attribute"@.len() != "jsx_identifier"@.len());
    reveal_strlit("tag_name");
    assert("tag_name"@.len() != "jsx_identifier"@.len());
    reveal_strlit("jsx_tag_name");
    assert("jsx_tag_name"@.len() != "jsx_identifier"@.len());
}

proof fn lemma_kind_name_9()
    ensures
        kind_of_name("identifier"@) == NodeKind::Identifier,
{
    reveal_strlit("identifier");
    reveal_strlit("start_tag");
    assert("start_tag"@.len() != "identifier"@.len());
    reveal_strlit("self_closing_tag");
    assert("self_closing_tag"@.len() != "identifier"@.len());
    reveal_strlit("jsx_opening_element");
    assert("jsx_opening_element"@.len() != "identifier"@.len());
    reveal_strlit("jsx_self_closing_element");
    assert("jsx_self_closing_element"@.len() != "identifier"@.len());
    reveal_strlit("attribute");
    assert("attribute"@.len() != "identifier"@.len());
    reveal_strlit("jsx_attribute");
    assert("jsx_attribute"@.len() != "identifier"@.len());
    reveal_strlit("tag_name");
    assert("tag_name"@.len() != "identifier"@.len());
    reveal_strlit("jsx_tag_name");
    assert("jsx_tag_name"@.len() != "identifier"@.len());
    reveal_strlit("jsx_identifier");
    assert("jsx_identifier"@.len() != "identifier"@.len());
}

proof fn lemma_kind_name_10()
    ensures
        kind_of_name("property_identifier"@) == NodeKind::PropertyIdentifier,
{
    reveal_strlit("property_identifier");
    reveal_strlit("start_tag");
    assert("start_tag"@.len() != "property_identifier"@.len());
    reveal_strlit("self_closing_tag");
    assert("self_closing_tag"@.len() != "property_identifier"@.len());
    reveal_strlit("jsx_opening_element");
    assert("jsx_opening_element"@[0] != "property_identifier"@[0]);
    reveal_strlit("jsx_self_closing_element");
    assert("jsx_self_closing_element"@.len() != "property_identifier"@.len());
    reveal_strlit("attribute");
    assert("attribute"@.len() != "property_identifier"@.len());
    reveal_strlit("jsx_attribute");
    assert("jsx_attribute"@.len() != "property_identifier"@.len());
    reveal_strlit("tag_name");
    assert("tag_name"@.len() != "property_identifier"@.len());
    reveal_strlit("jsx_tag_name");
    assert("jsx_tag_name"@.len() != "property_identifier"@.len());
    reveal_strlit("jsx_identifier");
    assert("jsx_identifier"@.len() != "property_identifier"@.len());
    reveal_strlit("identifier");
    assert("identifier"@.len() != "property_identifier"@.len());
}

proof fn lemma_kind_name_11()
    ensures
        kind_of_name(":"@) == NodeKind::Colon,
{
    reveal_strlit(":");
    reveal_strlit("start_tag");
    assert("start_tag"@.len() != ":"@.len());
    reveal_strlit("self_closing_tag");
    assert("self_closing_tag"@.len() != ":"@.len());
    reveal_strlit("jsx_opening_element");
    assert("jsx_opening_element"@.len() != ":"@.len());
    reveal_strlit("jsx_self_closing_element");
    assert("jsx_self_closing_element"@.len() != ":"@.len());
    reveal_strlit("attribute");
    assert("attribute"@.len() != ":"@.len());
    reveal_strlit("jsx_attribute");
    assert("jsx_attribute"@.len() != ":"@.len());
    reveal_strlit("tag_name");
    assert("tag_name"@.len() != ":"@.len());
    reveal_strlit("jsx_tag_name");
    assert("jsx_tag_name"@.len() != ":"@.len());
    reveal_strlit("jsx_identifier");
    assert("jsx_identifier"@.len() != ":"@.len());
    reveal_strlit("identifier");
    assert("identifier"@.len() != ":"@.len());
    reveal_strlit("property_identifier");
    assert("property_identifier"@.len() != ":"@.len());
}

proof fn lemma_kind_name_12()
    ensures
        kind_of_name("="@) == NodeKind::Equals,
{
    reveal_strlit("=");
    reveal_strlit("start_tag");
    assert("start_tag"@.len() != "="@.len());
    reveal_strlit("self_closing_tag");
    assert("self_closing_tag"@.len() != "="@.len());
    reveal_strlit("jsx_opening_element");
    assert("jsx_opening_element"@.len() != "="@.len());
    reveal_strlit("jsx_self_closing_element");
    assert("jsx_self_closing_element"@.len() != "="@.len());
    reveal_strlit("attribute");
    assert("attribute"@.len() != "="@.len());
    reveal_strlit("jsx_attribute");
    assert("jsx_attribute"@.len() != "="@.len());
    reveal_strlit("tag_name");
    assert("tag_name"@.len() != "="@.len());
    reveal_strlit("jsx_tag_name");
    assert("jsx_tag_name"@.len() != "="@.len());
    reveal_strlit("jsx_identifier");
    assert("jsx_identifier"@.len() != "="@.len());
    reveal_strlit("identifier");
    assert("identifier"@.len() != "="@.len());
    reveal_strlit("property_identifier");
    assert("property_identifier"@.len() != "="@.len());
    reveal_strlit(":");
    assert(":"@[0] != "="@[0]);
}

proof fn lemma_kind_name_13()
    ensures
        kind_of_name("jsx_expression"@) == NodeKind::JsxExpression,
{
    reveal_strlit("jsx_expression");
    reveal_strlit("start_tag");
    assert("start_tag"@.len() != "jsx_expression"@.len());
    reveal_strlit("self_closing_tag");
    assert("self_closing_tag"@.len() != "jsx_expression"@.len());
    reveal_strlit("jsx_opening_element");
    assert("jsx_opening_element"@.len() != "jsx_expression"@.len());
    reveal_strlit("jsx_self_closing_element");
    assert("jsx_self_closing_element"@.len() != "jsx_expression"@.len());
    reveal_strlit("attribute");
    assert("attribute"@.len() != "jsx_expression"@.len());
    reveal_strlit("jsx_attribute");
    assert("jsx_attribute"@.len() != "jsx_expression"@.len());
    reveal_strlit("tag_name");
    assert("tag_name"@.len() != "jsx_expression"@.len());
    reveal_strlit("jsx_tag_name");
    assert("jsx_tag_name"@.len() != "jsx_expression"@.len());
    reveal_strlit("jsx_identifier");
    assert("jsx_identifier"@[4] != "jsx_expression"@[4]);
    reveal_strlit("identifier");
    assert("identifier"@.len() != "jsx_expression"@.len());
    reveal_strlit("property_identifier");
    assert("property_identifier"@.len() != "jsx_expression"@.len());
    reveal_strlit(":");
    assert(":"@.len() != "jsx_expression"@.len());
    reveal_strlit("=");
    assert("="@.len() != "jsx_expression"@.len());
}

proof fn lemma_kind_name_14()
    ensures
        kind_of_name("string"@) == NodeKind::StringLiteral,
{
    reveal_strlit("string");
    reveal_strlit("start_tag");
    assert("start_tag"@.len() != "string"@.len());
    reveal_strlit("self_closing_tag");
    assert("self_closing_tag"@.len() != "string"@.len());
    reveal_strlit("jsx_opening_element");
    assert("jsx_opening_element"@.len() != "string"@.len());
    reveal_strlit("jsx_self_closing_element");
    assert("jsx_self_closing_element"@.len() != "string"@.len());
    reveal_strlit("attribute");
    assert("attribute"@.len() != "string"@.len());
    reveal_strlit("jsx_attribute");
    assert("jsx_attribute"@.len() != "string"@.len());
    reveal_strlit("tag_name");
    assert("tag_name"@.len() != "string"@.len());
    reveal_strlit("jsx_tag_name");
    assert("jsx_tag_name"@.len() != "string"@.len());
    reveal_strlit("jsx_identifier");
    assert("jsx_identifier"@.len() != "string"@.len());
    reveal_strlit("identifier");
    assert("identifier"@.len() != "string"@.len());
    reveal_strlit("property_identifier");
    assert("property_identifier"@.len() != "string"@.len());
    reveal_strlit(":");
    assert(":"@.len() != "string"@.len());
    reveal_strlit("=");
    assert("="@.len() != "string"@.len());
    reveal_strlit("jsx_expression");
    assert("jsx_expression"@.len() != "string"@.len());
}

proof fn lemma_kind_name_15()
    ensures
        kind_of_name("template_string"@) == NodeKind::TemplateString,
{
    reveal_strlit("template_string");
    reveal_strlit("start_tag");
    assert("start_tag"@.len() != "template_string"@.len());
    reveal_strlit("self_closing_tag");
    assert("self_closing_tag"@.len() != "template_string"@.len());
    reveal_strlit("jsx_opening_element");
    assert("jsx_opening_element"@.len() != "template_string"@.len());
    reveal_strlit("jsx_self_closing_element");
    assert("jsx_self_closing_element"@.len() != "template_string"@.len());
    reveal_strlit("attribute");
    assert("attribute"@.len() != "template_string"@.len());
    reveal_strlit("jsx_attribute");
    assert("jsx_attribute"@.len() != "template_string"@.len());
    reveal_strlit("tag_name");
    assert("tag_name"@.len() != "template_string"@.len());
    reveal_strlit("jsx_tag_name");
    assert("jsx_tag_name"@.len() != "template_string"@.len());
    reveal_strlit("jsx_identifier");
    assert("jsx_identifier"@.len() != "template_string"@.len());
    reveal_strlit("identifier");
    assert("identifier"@.len() != "template_string"@.len());
    reveal_strlit("property_identifier");
    assert("property_identifier"@.len() != "template_string"@.len());
    reveal_strlit(":");
    assert(":"@.len() != "template_string"@.len());
    reveal_strlit("=");
    assert("="@.len() != "template_string"@.len());
    reveal_strlit("jsx_expression");
    assert("jsx_expression"@.len() != "template_string"@.len());
    reveal_strlit("string");
    assert("string"@.len() != "template_string"@.len());
}

proof fn lemma_kind_name_16()
    ensures
        kind_of_name("quoted_attribute_value"@) == NodeKind::QuotedAttributeValue,
{
    reveal_strlit("quoted_attribute_value");
    reveal_strlit("start_tag");
    assert("start_tag"@.len() != "quoted_attribute_value"@.len());
    reveal_strlit("self_closing_tag");
    assert("self_closing_tag"@.len() != "quoted_attribute_value"@.len());
    reveal_strlit("jsx_opening_element");
    assert("jsx_opening_element"@.len() != "quoted_attribute_value"@.len());
    reveal_strlit("jsx_self_closing_element");
    assert("jsx_self_closing_element"@.len() != "quoted_attribute_value"@.len());
    reveal_strlit("attribute");
    assert("attribute"@.len() != "quoted_attribute_value"@.len());
    reveal_strlit("jsx_attribute");
    assert("jsx_attribute"@.len() != "quoted_attribute_value"@.len());
    reveal_strlit("tag_name");
    assert("tag_name"@.len() != "quoted_attribute_value"@.len());
    reveal_strlit("jsx_tag_name");
    assert("jsx_tag_name"@.len() != "quoted_attribute_value"@.len());
    reveal_strlit("jsx_identifier");
    assert("jsx_identifier"@.len() != "quoted_attribute_value"@.len());
    reveal_strlit("identifier");
    assert("identifier"@.len() != "quoted_attribute_value"@.len());
    reveal_strlit("property_identifier");
    assert("property_identifier"@.len() != "quoted_attribute_value"@.len());
    reveal_strlit(":");
    assert(":"@.len() != "quoted_attribute_value"@.len());
    reveal_strlit("=");
    assert("="@.len() != "quoted_attribute_value"@.len());
    reveal_strlit("jsx_expression");
    assert("jsx_expression"@.len() != "quoted_attribute_value"@.len());
    reveal_strlit("string");
    assert("string"@.len() != "quoted_attribute_value"@.len());
    reveal_strlit("template_string");
    assert("template_string"@.len() != "quoted_attribute_value"@.len());
}

proof fn lemma_kind_name_17()
    ensures
        kind_of_name("attribute_value"@) == NodeKind::AttributeValue,
{
    reveal_strlit("attribute_value");
    reveal_strlit("start_tag");
    assert("start_tag"@.len() != "attribute_value"@.len());
    reveal_strlit("self_closing_tag");
    assert("self_closing_tag"@.len() != "attribute_value"@.len());
    reveal_strlit("jsx_opening_element");
    assert("jsx_opening_element"@.len() != "attribute_value"@.len());
    reveal_strlit("jsx_self_closing_element");
    assert("jsx_self_closing_element"@.len() != "attribute_value"@.len());
    reveal_strlit("attribute");
    assert("attribute"@.len() != "attribute_value"@.len());
    reveal_strlit("jsx_attribute");
    assert("jsx_attribute"@.len() != "attribute_value"@.len());
    reveal_strlit("tag_name");
    assert("tag_name"@.len() != "attribute_value"@.len());
    reveal_strlit("jsx_tag_name");
    assert("jsx_tag_name"@.len() != "attribute_value"@.len());
    reveal_strlit("jsx_identifier");
    assert("jsx_identifier"@.len() != "attribute_value"@.len());
    reveal_strlit("identifier");
    assert("identifier"@.len() != "attribute_value"@.len());
    reveal_strlit("property_identifier");
    assert("property_identifier"@.len() != "attribute_value"@.len());
    reveal_strlit(":");
    assert(":"@.len() != "attribute_value"@.len());
    reveal_strlit("=");
    assert("="@.len() != "attribute_value"@.len());
    reveal_strlit("jsx_expression");
    assert("jsx_expression"@.len() != "attribute_value"@.len());
    reveal_strlit("string");
    assert("string"@.len() != "attribute_value"@.len());
    reveal_strlit("template_string");
    assert("template_string"@[0] != "attribute_value"@[0]);
    reveal_strlit("quoted_attribute_value");
    assert("quoted_attribute_value"@.len() != "attribute_value"@.len());
}

/// The kinds that tree-sitter's grammar names stand for.
pub proof fn lemma_kind_names()
    ensures
        kind_of_name("start_tag"@) == NodeKind::StartTag,
        kind_of_name("self_closing_tag"@) == NodeKind::SelfClosingTag,
        kind_of_name("jsx_opening_element"@) == NodeKind::JsxOpeningElement,
        kind_of_name("jsx_self_closing_element"@) == NodeKind::JsxSelfClosingElement,
        kind_of_name("attribute"@) == NodeKind::Attribute,
        kind_of_name("jsx_attribute"@) == NodeKind::JsxAttribute,
        kind_of_name("tag_name"@) == NodeKind::TagName,
        kind_of_name("jsx_tag_name"@) == NodeKind::JsxTagName,
        kind_of_name("jsx_identifier"@) == NodeKind::JsxIdentifier,
        kind_of_name("identifier"@) == NodeKind::Identifier,
        kind_of_name("property_identifier"@) == NodeKind::PropertyIdentifier,
        kind_of_name(":"@) == NodeKind::Colon,
        kind_of_name("="@) == NodeKind::Equals,
        kind_of_name("jsx_expression"@) == NodeKind::JsxExpression,
        kind_of_name("string"@) == NodeKind::StringLiteral,
        kind_of_name("template_string"@) == NodeKind::TemplateString,
        kind_of_name("quoted_attribute_value"@) == NodeKind::QuotedAttributeValue,
        kind_of_name("attribute_value"@) == NodeKind::AttributeValue,
{
    lemma_kind_name_0();
    lemma_kind_name_1();
    lemma_kind_name_2();
    lemma_kind_name_3();
    lemma_kind_name_4();
    lemma_kind_name_5();
    lemma_kind_name_6();
    lemma_kind_name_7();
    lemma_kind_name_8();
    lemma_kind_name_9();
    lemma_kind_name_10();
    lemma_kind_name_11();
    lemma_kind_name_12();
    lemma_kind_name_13();
    lemma_kind_name_14();
    lemma_kind_name_15();
    lemma_kind_name_16();
    lemma_kind_name_17();
}

/// The text of a node that tree-sitter names `string`, `template_string`,
/// `quoted_attribute_value`, `attribute_value` or `jsx_expression` is read as an
/// attribute's value; the nodes named `attribute` and `jsx_attribute` are
/// attributes; and the four opening and self-closing tag kinds are tags.
pub proof fn lemma_named_kinds_read(src: Seq<char>, n: SyntaxNode)
    ensures
        (n.kind == kind_of_name("string"@) || n.kind == kind_of_name("template_string"@)
            || n.kind == kind_of_name("quoted_attribute_value"@) || n.kind == kind_of_name(
            "attribute_value"@,
        ) || n.kind == kind_of_name("jsx_expression"@)) ==> value_text(src, n) == Some(
            node_text(src, n),
        ),
        is_attribute_kind(kind_of_name("attribute"@)),
        is_attribute_kind(kind_of_name("jsx_attribute"@)),
        is_tag_kind(kind_of_name("start_tag"@)),
        is_tag_kind(kind_of_name("self_closing_tag"@)),
        is_tag_kind(kind_of_name("jsx_opening_element"@)),
        is_tag_kind(kind_of_name("jsx_self_closing_element"@)),
{
    lemma_kind_names();
}

} // verus!
