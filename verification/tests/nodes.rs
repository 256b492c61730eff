use rtml::{
    body, br, div, head, html, img, new_empty_node, new_node, new_self_closing_node, text,
    Attributes, HtmlNode,
};

fn attributes(pairs: &[(&str, &str)]) -> Attributes {
    let mut all = Attributes::new();
    for (name, value) in pairs {
        all.insert(name.to_string(), value.to_string());
    }
    all
}

fn listed(attributes: &Attributes) -> Vec<(String, String)> {
    (0..attributes.len())
        .map(|i| {
            let (name, value) = attributes.entry(i);
            (name.to_string(), value.to_string())
        })
        .collect()
}

fn pairs(all: &[(&str, &str)]) -> Vec<(String, String)> {
    all.iter().map(|(n, v)| (n.to_string(), v.to_string())).collect()
}

fn text_of(node: &HtmlNode) -> &str {
    match node {
        HtmlNode::Text { content } => content,
        _ => panic!("not a text leaf"),
    }
}

#[test]
fn text_holds_the_raw_text() {
    assert_eq!(text_of(&text("a <b> c")), "a <b> c");
    assert_eq!(text_of(&text("")), "");
}

#[test]
fn empty_node_is_a_container() {
    match new_empty_node("section") {
        HtmlNode::Element { name, attributes, children } => {
            assert_eq!(name, "section");
            assert_eq!(attributes.len(), 0);
            assert!(children.is_empty());
        }
        _ => panic!("not a container"),
    }
}

#[test]
fn node_keeps_name_attributes_and_children() {
    let node = new_node(
        "ul",
        attributes(&[("class", "list"), ("id", "l")]),
        vec![text("one"), br(), text("two")],
    );
    match node {
        HtmlNode::Element { name, attributes, children } => {
            assert_eq!(name, "ul");
            assert_eq!(listed(&attributes), pairs(&[("class", "list"), ("id", "l")]));
            assert_eq!(children.len(), 3);
            assert_eq!(text_of(&children[0]), "one");
            assert!(matches!(&children[1], HtmlNode::SelfClosing { name, .. } if name == "br"));
            assert_eq!(text_of(&children[2]), "two");
        }
        _ => panic!("not a container"),
    }
}

#[test]
fn self_closing_node_keeps_name_and_attributes() {
    match new_self_closing_node("link", attributes(&[("rel", "stylesheet")])) {
        HtmlNode::SelfClosing { name, attributes } => {
            assert_eq!(name, "link");
            assert_eq!(listed(&attributes), pairs(&[("rel", "stylesheet")]));
        }
        _ => panic!("not self-closing"),
    }
}

#[test]
fn document_has_head_then_body() {
    let node = html(text("first"), text("second"));
    match node {
        HtmlNode::Element { name, attributes, children } => {
            assert_eq!(name, "html");
            assert_eq!(attributes.len(), 0);
            assert_eq!(children.len(), 2);
            assert_eq!(text_of(&children[0]), "first");
            assert_eq!(text_of(&children[1]), "second");
        }
        _ => panic!("not a container"),
    }
}

#[test]
fn document_takes_any_two_nodes() {
    let node = html(br(), new_empty_node("x"));
    match node {
        HtmlNode::Element { children, .. } => {
            assert_eq!(children.len(), 2);
            assert!(matches!(&children[0], HtmlNode::SelfClosing { name, .. } if name == "br"));
            assert!(matches!(&children[1], HtmlNode::Element { name, .. } if name == "x"));
        }
        _ => panic!("not a container"),
    }
}

#[test]
fn head_starts_with_the_title() {
    let node = head("My page".to_string(), vec![br(), text("extra"), new_empty_node("meta")]);
    match node {
        HtmlNode::Element { name, attributes, children } => {
            assert_eq!(name, "head");
            assert_eq!(attributes.len(), 0);
            assert_eq!(children.len(), 4);
            match &children[0] {
                HtmlNode::Element { name, attributes, children } => {
                    assert_eq!(name, "title");
                    assert_eq!(attributes.len(), 0);
                    assert_eq!(children.len(), 1);
                    assert_eq!(text_of(&children[0]), "My page");
                }
                _ => panic!("the title is not a container"),
            }
            assert!(matches!(&children[1], HtmlNode::SelfClosing { name, .. } if name == "br"));
            assert_eq!(text_of(&children[2]), "extra");
            assert!(matches!(&children[3], HtmlNode::Element { name, .. } if name == "meta"));
        }
        _ => panic!("not a container"),
    }
}

#[test]
fn head_without_more_children_has_only_the_title() {
    let node = head("T".to_string(), Vec::new());
    assert_eq!(node.render(0), "<head >\n    <title >\n        T\n    </title>\n</head>");
    match node {
        HtmlNode::Element { children, .. } => assert_eq!(children.len(), 1),
        _ => panic!("not a container"),
    }
}

#[test]
fn body_and_div_keep_their_children() {
    match body(vec![text("a"), text("b")]) {
        HtmlNode::Element { name, attributes, children } => {
            assert_eq!(name, "body");
            assert_eq!(attributes.len(), 0);
            assert_eq!(children.len(), 2);
            assert_eq!(text_of(&children[0]), "a");
            assert_eq!(text_of(&children[1]), "b");
        }
        _ => panic!("not a container"),
    }
    match div(attributes(&[("class", "c")]), vec![text("in")]) {
        HtmlNode::Element { name, attributes, children } => {
            assert_eq!(name, "div");
            assert_eq!(listed(&attributes), pairs(&[("class", "c")]));
            assert_eq!(children.len(), 1);
            assert_eq!(text_of(&children[0]), "in");
        }
        _ => panic!("not a container"),
    }
}

#[test]
fn image_without_own_source_takes_the_given_one() {
    match img("cat.png".to_string(), attributes(&[("alt", "a cat"), ("width", "10")])) {
        HtmlNode::SelfClosing { name, attributes } => {
            assert_eq!(name, "img");
            assert_eq!(attributes.get("src"), Some("cat.png"));
            assert_eq!(
                listed(&attributes),
                pairs(&[("src", "cat.png"), ("alt", "a cat"), ("width", "10")])
            );
        }
        _ => panic!("not self-closing"),
    }
    match img("cat.png".to_string(), Attributes::new()) {
        HtmlNode::SelfClosing { attributes, .. } => {
            assert_eq!(listed(&attributes), pairs(&[("src", "cat.png")]));
        }
        _ => panic!("not self-closing"),
    }
}

#[test]
fn image_with_own_source_keeps_its_own() {
    match img("cat.png".to_string(), attributes(&[("alt", "a dog"), ("src", "dog.png")])) {
        HtmlNode::SelfClosing { name, attributes } => {
            assert_eq!(name, "img");
            assert_eq!(attributes.get("src"), Some("dog.png"));
            assert_eq!(attributes.len(), 2);
            assert_eq!(listed(&attributes), pairs(&[("src", "dog.png"), ("alt", "a dog")]));
        }
        _ => panic!("not self-closing"),
    }
}

#[test]
fn line_break_has_no_attributes() {
    match br() {
        HtmlNode::SelfClosing { name, attributes } => {
            assert_eq!(name, "br");
            assert_eq!(attributes.len(), 0);
        }
        _ => panic!("not self-closing"),
    }
}
