use html_tree::html::node::element::anchor::AnchorBuilder;
use html_tree::html::node::element::attribute::AttributeBase;
use html_tree::html::node::HTMLNode;
use html_tree::html::tree::HTMLTree;
use html_tree::my_math::{Add, Inc, Val};

#[test]
fn test_anchor() {
    let mut tree = HTMLTree::new();
    let a = HTMLNode::create_anchor(&mut tree, Some("hello, world"), Some("/about"));
    assert_eq!(tree.render(a), "<a href=\"/about\">hello, world</a>");
    assert_eq!(tree.child_count(a), 1);
}

#[test]
fn test_attribute() {
    let mut attribute = AttributeBase::default();
    attribute.add_class(String::from("class1"));
    attribute.add_class(String::from("class2"));

    attribute.set_id(String::from("id1"));

    attribute.add_data_attr(String::from("role"), String::from("button"));

    assert_eq!(
        attribute.render_attr_base(),
        String::from(r#" class="class1 class2 " id="id1" data-role="button""#)
    );
}

#[test]
fn empty_attributes_render_nothing() {
    let attribute = AttributeBase::new();
    assert_eq!(attribute.render_attr_base(), "");
    let mut tree = HTMLTree::new();
    let a = HTMLNode::create_anchor(&mut tree, None, None);
    assert_eq!(tree.render(a), "<a></a>");
    assert_eq!(tree.child_count(a), 0);
}

#[test]
fn data_attributes_upsert_in_place() {
    let mut attribute = AttributeBase::new();
    attribute.add_data_attr(String::from("b"), String::from("1"));
    attribute.add_data_attr(String::from("a"), String::from("2"));
    attribute.add_data_attr(String::from("b"), String::from("3"));
    assert_eq!(attribute.render_attr_base(), r#" data-a="2" data-b="3""#);
    assert_eq!(attribute.get_data(&String::from("b")), Some(&String::from("3")));
    assert_eq!(attribute.get_data(&String::from("a")), Some(&String::from("2")));
    assert_eq!(attribute.get_data(&String::from("c")), None);
}

#[test]
fn data_attributes_render_by_key_order() {
    let mut first = AttributeBase::new();
    first.add_data_attr(String::from("b"), String::from("1"));
    first.add_data_attr(String::from("a"), String::from("2"));
    let mut second = AttributeBase::new();
    second.add_data_attr(String::from("a"), String::from("2"));
    second.add_data_attr(String::from("b"), String::from("1"));
    assert_eq!(first.render_attr_base(), r#" data-a="2" data-b="1""#);
    assert_eq!(first.render_attr_base(), second.render_attr_base());

    let mut keys = AttributeBase::new();
    keys.add_data_attr(String::from("ab"), String::from("3"));
    keys.add_data_attr(String::from("a"), String::from("1"));
    keys.add_data_attr(String::from("B"), String::from("0"));
    keys.add_data_attr(String::from("b"), String::from("4"));
    keys.add_data_attr(String::from("aa"), String::from("2"));
    assert_eq!(
        keys.render_attr_base(),
        r#" data-B="0" data-a="1" data-aa="2" data-ab="3" data-b="4""#
    );
}

#[test]
fn builders_with_same_mapping_render_alike() {
    let mut tree = HTMLTree::new();
    let x = AnchorBuilder::new()
        .add_data_attr("role", "button")
        .add_data_attr("id", "7")
        .build(&mut tree);
    let y = AnchorBuilder::new()
        .add_data_attr("id", "7")
        .add_data_attr("role", "link")
        .add_data_attr("role", "button")
        .build(&mut tree);
    assert_eq!(tree.render(x), tree.render(y));
    assert_eq!(tree.render(x), r#"<a data-id="7" data-role="button"></a>"#);
}

#[test]
fn classes_keep_duplicates_and_id_is_replaced() {
    let mut attribute = AttributeBase::new();
    attribute.add_class(String::from("x"));
    attribute.add_class(String::from("x"));
    attribute.set_id(String::from("first"));
    attribute.set_id(String::from("second"));
    assert_eq!(attribute.get_class(), &vec![String::from("x"), String::from("x")]);
    assert_eq!(attribute.get_id(), &Some(String::from("second")));
    assert_eq!(attribute.render_attr_base(), r#" class="x x " id="second""#);
}

#[test]
fn nested_anchor_scenario() {
    let mut tree = HTMLTree::new();
    let outer = AnchorBuilder::new()
        .set_href("/page1")
        .set_id("id_1")
        .add_class("class1")
        .add_class("class2")
        .build(&mut tree);
    let inner = AnchorBuilder::new()
        .set_href("#me")
        .set_id("id_2")
        .add_data_attr("role", "button")
        .build(&mut tree);
    tree.add_child(outer, inner).unwrap();
    assert_eq!(
        tree.render(outer),
        r##"<a href="/page1" class="class1 class2 " id="id_1"><a href="#me" id="id_2" data-role="button"></a></a>"##
    );
}

#[test]
fn text_appended_after_anchor_content() {
    let mut tree = HTMLTree::new();
    let text = HTMLNode::create_text(&mut tree, "text");
    let anchor = HTMLNode::create_anchor(&mut tree, Some("hello, world"), Some("/about"));
    assert_eq!(tree.render(text), "text");
    tree.add_child(anchor, text).unwrap();
    assert_eq!(tree.child_count(anchor), 2);
    assert_eq!(tree.render(anchor), "<a href=\"/about\">hello, worldtext</a>");
}

#[test]
fn building_twice_renders_identically() {
    let mut tree = HTMLTree::new();
    let make = |tree: &mut HTMLTree| {
        AnchorBuilder::new()
            .set_href("/x")
            .add_class("c")
            .add_data_attr("k", "v")
            .add_data_attr("j", "w")
            .set_content("body")
            .build(tree)
    };
    let first = make(&mut tree);
    let second = make(&mut tree);
    assert_ne!(first, second);
    let expected = r#"<a href="/x" class="c " data-j="w" data-k="v">body</a>"#;
    assert_eq!(tree.render(first), expected);
    assert_eq!(tree.render(second), expected);
    let mut other = HTMLTree::new();
    let third = make(&mut other);
    assert_eq!(other.render(third), tree.render(first));
}

#[test]
fn bare_nodes_render_empty() {
    let mut tree = HTMLTree::new();
    let b = HTMLNode::create_base(&mut tree, false);
    let t = HTMLNode::create_text(&mut tree, "hidden");
    tree.add_child(b, t).unwrap();
    assert_eq!(tree.render(b), "");
    let a = HTMLNode::create_anchor(&mut tree, None, Some("/"));
    tree.add_child(a, b).unwrap();
    assert_eq!(tree.render(a), "<a href=\"/\"></a>");
}

#[test]
fn val_increments() {
    let mut v = Val { val: 3 };
    v.inc();
    assert_eq!(v.val, 4);
    v.add(-10);
    assert_eq!(v.val, -6);
}
