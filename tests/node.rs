use gosub_styling::node::{
    CommentData, ElementData,
    Node, NodeData, NodeId, NodeTrait, NodeType, TextData, HTML_NAMESPACE, MATHML_NAMESPACE,
    SVG_NAMESPACE,
};

fn id_test() -> Vec<(String, String)> {
    vec![("id".to_string(), "test".to_string())]
}

#[test]
fn new_document() {
    let node = Node::new_document();
    assert_eq!(node.id(), NodeId::default());
    assert_eq!(node.parent(), None);
    assert!(node.children().is_empty());
    assert_eq!(*node.name(), "".to_string());
    assert_eq!(*node.namespace(), None);
    match node.data() {
        NodeData::Document(_) => (),
        _ => panic!(),
    }
}

#[test]
fn new_element() {
    let attributes = id_test();
    let node = Node::new_element("div", &attributes, HTML_NAMESPACE);
    assert_eq!(node.id(), NodeId::default());
    assert_eq!(node.parent(), None);
    assert!(node.children().is_empty());
    assert_eq!(*node.name(), "div".to_string());
    assert_eq!(*node.namespace(), Some(HTML_NAMESPACE.into()));
    let NodeData::Element(ElementData { name, attributes, .. }) = node.data() else {
        panic!()
    };
    assert_eq!(name, "div");
    assert!(attributes.contains("id"));
    assert_eq!(attributes.get("id").unwrap(), "test");
}

#[test]
fn new_comment() {
    let node = Node::new_comment("test");
    assert_eq!(node.id(), NodeId::default());
    assert_eq!(node.parent(), None);
    assert!(node.children().is_empty());
    assert_eq!(*node.name(), "".to_string());
    assert_eq!(*node.namespace(), None);
    let NodeData::Comment(CommentData { value, .. }) = node.data() else {
        panic!()
    };
    assert_eq!(value, "test");
}

#[test]
fn new_text() {
    let node = Node::new_text("test");
    assert_eq!(node.id(), NodeId::default());
    assert_eq!(node.parent(), None);
    assert!(node.children().is_empty());
    assert_eq!(*node.name(), "".to_string());
    assert_eq!(*node.namespace(), None);
    let NodeData::Text(TextData { value }) = node.data() else {
        panic!()
    };
    assert_eq!(value, "test");
}

#[test]
fn is_special() {
    let node = Node::new_element("div", &id_test(), HTML_NAMESPACE);
    assert!(node.is_special());
}

#[test]
fn type_of() {
    let node = Node::new_document();
    assert_eq!(node.type_of(), NodeType::Document);
    let node = Node::new_text("test");
    assert_eq!(node.type_of(), NodeType::Text);
    let node = Node::new_comment("test");
    assert_eq!(node.type_of(), NodeType::Comment);
    let node = Node::new_element("div", &id_test(), HTML_NAMESPACE);
    assert_eq!(node.type_of(), NodeType::Element);
}

#[test]
fn special_html_elements() {
    for element in gosub_styling::node::special_html_elements().iter() {
        let node = Node::new_element(element, &id_test(), HTML_NAMESPACE);
        assert!(node.is_special());
    }
}

#[test]
fn special_mathml_elements() {
    for element in gosub_styling::node::special_mathml_elements().iter() {
        let node = Node::new_element(element, &id_test(), MATHML_NAMESPACE);
        assert!(node.is_special());
    }
}

#[test]
fn special_svg_elements() {
    for element in gosub_styling::node::special_svg_elements().iter() {
        let node = Node::new_element(element, &id_test(), SVG_NAMESPACE);
        assert!(node.is_special());
    }
}

#[test]
fn type_of_node() {
    let node = Node::new_document();
    assert_eq!(node.type_of(), NodeType::Document);
    let node = Node::new_text("test");
    assert_eq!(node.type_of(), NodeType::Text);
    let node = Node::new_comment("test");
    assert_eq!(node.type_of(), NodeType::Comment);
    let node = Node::new_element("div", &id_test(), HTML_NAMESPACE);
    assert_eq!(node.type_of(), NodeType::Element);
}

#[test]
fn contains_attribute() {
    let attr = vec![("x".to_string(), "value".to_string())];
    let node = Node::new_element("node", &attr, HTML_NAMESPACE);
    let NodeData::Element(ElementData { attributes, .. }) = node.data() else {
        panic!()
    };
    assert!(attributes.contains("x"));
    assert!(!attributes.contains("z"));
}

#[test]
fn insert_attribute() {
    let attr = Vec::new();
    let mut node = Node::new_element("name", &attr, HTML_NAMESPACE);
    let NodeData::Element(element) = node.data_mut() else {
        panic!()
    };
    element.attributes.insert("key", "value");
    assert_eq!(element.attributes.get("key").unwrap(), "value");
}

#[test]
fn remove_attribute() {
    let attr = vec![("key".to_string(), "value".to_string())];
    let mut node = Node::new_element("name", &attr, HTML_NAMESPACE);
    let NodeData::Element(ElementData { attributes, .. }) = node.data_mut() else {
        panic!()
    };
    attributes.remove("key");
    assert!(!attributes.contains("key"));
}

#[test]
fn get_attribute() {
    let attr = vec![("key".to_string(), "value".to_string())];
    let node = Node::new_element("name", &attr, HTML_NAMESPACE);
    let NodeData::Element(ElementData { attributes, .. }) = node.data() else {
        panic!()
    };
    assert_eq!(attributes.get("key").unwrap(), "value");
}

#[test]
fn get_mut_attribute() {
    let attr = vec![("key".to_string(), "value".to_string())];
    let mut node = Node::new_element("name", &attr, HTML_NAMESPACE);
    let NodeData::Element(ElementData { attributes, .. }) = node.data_mut() else {
        panic!()
    };
    let mut attr_val = attributes.get("key").unwrap().clone();
    attr_val.push_str(" appended");
    attributes.insert("key", &attr_val);
    assert_eq!(attributes.get("key").unwrap(), "value appended");
}

#[test]
fn clear_attributes() {
    let attr = vec![("key".to_string(), "value".to_string())];
    let mut node = Node::new_element("name", &attr, HTML_NAMESPACE);
    let NodeData::Element(ElementData { attributes, .. }) = node.data_mut() else {
        panic!()
    };
    attributes.clear();
    assert!(attributes.is_empty());
}

#[test]
fn has_attributes() {
    let attr = Vec::new();
    let mut node = Node::new_element("name", &attr, HTML_NAMESPACE);
    let NodeData::Element(ElementData { attributes, .. }) = node.data_mut() else {
        panic!()
    };
    assert!(attributes.is_empty());
    attributes.insert("key", "value");
    assert!(!attributes.is_empty());
}

#[test]
fn named_id_only_on_elements() {
    let mut node = Node::new_element("div", &Vec::new(), HTML_NAMESPACE);
    assert!(!node.has_named_id());
    node.set_named_id("main");
    assert!(node.has_named_id());
    assert_eq!(node.get_named_id(), Some("main".to_string()));
    let NodeData::Element(ElementData { attributes, .. }) = node.data() else {
        panic!()
    };
    assert_eq!(attributes.get("id").unwrap(), "main");

    let mut text = Node::new_text("x");
    text.set_named_id("main");
    assert!(!text.has_named_id());
    assert_eq!(text.get_named_id(), None);
}

#[test]
fn node_ids() {
    let id = NodeId::root();
    assert!(id.is_root());
    assert!(!id.is_positive());
    let next = id.next();
    assert_eq!(next, NodeId(1));
    assert!(next.is_positive());
    assert_eq!(next.prev(), NodeId(0));
    assert_eq!(usize::from(NodeId(7)), 7);
    assert_eq!(NodeId::from(3usize), NodeId(3));
}

#[test]
fn tag_and_attribute_comparison() {
    let a = Node::new_element("p", &vec![("a".to_string(), "1".to_string()), ("b".to_string(), "2".to_string())], HTML_NAMESPACE);
    let b = Node::new_element("p", &vec![("b".to_string(), "2".to_string()), ("a".to_string(), "1".to_string())], HTML_NAMESPACE);
    let c = Node::new_element("p", &vec![("a".to_string(), "1".to_string())], HTML_NAMESPACE);
    let d = Node::new_element("p", &vec![("a".to_string(), "1".to_string()), ("b".to_string(), "2".to_string())], SVG_NAMESPACE);
    assert!(a.matches_tag_and_attrs(&b));
    assert!(!a.matches_tag_and_attrs(&c));
    assert!(!a.matches_tag_and_attrs(&d));
}

#[test]
fn formatting_elements() {
    let b = Node::new_element("b", &Vec::new(), HTML_NAMESPACE);
    assert!(b.0.is_formatting());
    let div = Node::new_element("div", &Vec::new(), HTML_NAMESPACE);
    assert!(!div.0.is_formatting());
    let svg_b = Node::new_element("b", &Vec::new(), SVG_NAMESPACE);
    assert!(!svg_b.0.is_formatting());
}

#[test]
fn children_are_kept_in_order() {
    let mut node = Node::new_document();
    node.push_child(NodeId(2));
    node.push(NodeId(5));
    node.children_mut().push(NodeId(9));
    assert_eq!(*node.children(), vec![NodeId(2), NodeId(5), NodeId(9)]);
    node.set_parent(Some(NodeId(1)));
    node.set_id(NodeId(4));
    assert_eq!(node.parent(), Some(NodeId(1)));
    assert_eq!(node.id(), NodeId(4));
}

#[test]
fn copies_keep_tag_attributes_and_links() {
    let mut node = Node::new_element("a", &vec![("href".to_string(), "x".to_string())], HTML_NAMESPACE);
    node.push_child(NodeId(3));
    node.set_parent(Some(NodeId(1)));
    let copy = node.clone();
    assert!(copy.matches_tag_and_attrs(&node));
    assert_eq!(*copy.children(), vec![NodeId(3)]);
    assert_eq!(copy.parent(), Some(NodeId(1)));
}
