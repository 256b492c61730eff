//! The node of a markup tree and its constructors.

use vstd::prelude::*;
use crate::attributes::{
    as_map, distinct_keys, has_key, index_of, lemma_index_of_entry, lemma_put_all_as_map,
    lemma_put_all_distinct, lookup, put_all, Attributes, Pair,
};

verus! {

/// A markup tree as pure data: what a [`HtmlNode`] stands for.
pub enum Markup {
    /// A tag with an opening and a closing part around its children.
    Element { name: Seq<char>, attributes: Seq<Pair>, children: Seq<Markup> },
    /// A tag that closes itself and has no children.
    SelfClosing { name: Seq<char>, attributes: Seq<Pair> },
    /// A run of raw text.
    Text { content: Seq<char> },
}

/// One node of a markup tree. A node owns its children.
pub enum HtmlNode {
    /// A tag with an opening and a closing part around its children.
    Element { name: String, attributes: Attributes, children: Vec<HtmlNode> },
    /// A tag that closes itself and has no children.
    SelfClosing { name: String, attributes: Attributes },
    /// A run of raw text, rendered as it is.
    Text { content: String },
}

impl HtmlNode {
    /// The tree below this node as pure data.
    pub open spec fn model(&self) -> Markup
        decreases self,
    {
        match self {
            HtmlNode::Element { name, attributes, children } => Markup::Element {
                name: name@,
                attributes: attributes@,
                children: Seq::new(
                    children@.len(),
                    |i: int|
                        if 0 <= i < children@.len() {
                            children@[i].model()
                        } else {
                            arbitrary()
                        },
                ),
            },
            HtmlNode::SelfClosing { name, attributes } => Markup::SelfClosing {
                name: name@,
                attributes: attributes@,
            },
            HtmlNode::Text { content } => Markup::Text { content: content@ },
        }
    }
}

impl View for HtmlNode {
    type V = Markup;

    open spec fn view(&self) -> Markup {
        self.model()
    }
}

/// The models of the nodes of `nodes`, in order.
pub open spec fn models(nodes: Seq<HtmlNode>) -> Seq<Markup> {
    nodes.map_values(|node: HtmlNode| node@)
}

/// The title of a document head: a `title` element around one text leaf.
pub open spec fn title_markup(title: Seq<char>) -> Markup {
    Markup::Element {
        name: "title"@,
        attributes: Seq::empty(),
        children: seq![Markup::Text { content: title }],
    }
}

/// The attributes of an image: `src` first, then `attributes` written on top,
/// so that a `src` among them replaces the one given by position.
pub open spec fn image_attributes(src: Seq<char>, attributes: Seq<Pair>) -> Seq<Pair> {
    put_all(seq![("src"@, src)], attributes)
}

/// An image always has a `src` attribute, and has it once. Its value is the
/// `src` given by position unless `attributes` has a `src` of its own, which
/// then stands. Every other attribute is as in `attributes`.
pub proof fn lemma_image_source(src: Seq<char>, attributes: Seq<Pair>)
    requires
        distinct_keys(attributes),
    ensures
        distinct_keys(image_attributes(src, attributes)),
        has_key(image_attributes(src, attributes), "src"@),
        lookup(image_attributes(src, attributes), "src"@) == if has_key(attributes, "src"@) {
            lookup(attributes, "src"@)
        } else {
            Some(src)
        },
        as_map(image_attributes(src, attributes)) == as_map(attributes).insert(
            "src"@,
            if has_key(attributes, "src"@) {
                lookup(attributes, "src"@)->0
            } else {
                src
            },
        ),
{
    let base = seq![("src"@, src)];
    let merged = image_attributes(src, attributes);
    assert(distinct_keys(base));
    lemma_index_of_entry(base, 0);
    lemma_put_all_distinct(base, attributes);
    lemma_put_all_as_map(base, attributes);
    assert(as_map(base).contains_key("src"@));
    assert(as_map(merged).contains_key("src"@));
    assert(as_map(merged)["src"@] == lookup(merged, "src"@)->0);
    assert(as_map(attributes).contains_key("src"@) == has_key(attributes, "src"@));
    assert forall|key: Seq<char>| #[trigger] has_key(base, key) implies key == "src"@ by {
        assert(base[index_of(base, key)].0 == key);
    }
    assert(as_map(merged) =~= as_map(attributes).insert(
        "src"@,
        if has_key(attributes, "src"@) {
            lookup(attributes, "src"@)->0
        } else {
            src
        },
    ));
}

/// A text leaf that holds `raw_text` as it is.
pub fn text(raw_text: &str) -> (node: HtmlNode)
    ensures
        node@ == (Markup::Text { content: raw_text@ }),
{
    HtmlNode::Text { content: raw_text.to_owned() }
}

/// A container named `p_name` without attributes and without children.
pub fn new_empty_node(p_name: &str) -> (node: HtmlNode)
    ensures
        node@ == (Markup::Element {
            name: p_name@,
            attributes: Seq::empty(),
            children: Seq::empty(),
        }),
{
    let children: Vec<HtmlNode> = Vec::new();
    assert(models(children@) =~= Seq::<Markup>::empty());
    new_node(p_name, Attributes::new(), children)
}

/// A container named `p_name` with the given attributes around the given
/// children, in their order.
pub fn new_node(p_name: &str, attributes: Attributes, children: Vec<HtmlNode>) -> (node: HtmlNode)
    ensures
        node@ == (Markup::Element {
            name: p_name@,
            attributes: attributes@,
            children: models(children@),
        }),
{
    let node = HtmlNode::Element { name: p_name.to_owned(), attributes, children };
    assert(node@->Element_children =~= models(children@));
    node
}

/// A self-closing tag named `p_name` with the given attributes.
pub fn new_self_closing_node(p_name: &str, attributes: Attributes) -> (node: HtmlNode)
    ensures
        node@ == (Markup::SelfClosing { name: p_name@, attributes: attributes@ }),
{
    HtmlNode::SelfClosing { name: p_name.to_owned(), attributes }
}

/// A document: an `html` element around `head` and `body`, in this order.
pub fn html(head: HtmlNode, body: HtmlNode) -> (node: HtmlNode)
    ensures
        node@ == (Markup::Element {
            name: "html"@,
            attributes: Seq::empty(),
            children: seq![head@, body@],
        }),
{
    let mut children: Vec<HtmlNode> = Vec::new();
    children.push(head);
    children.push(body);
    assert(models(children@) =~= seq![head@, body@]);
    new_node("html", Attributes::new(), children)
}

/// A document head: a `head` element whose first child is the title, a
/// `title` element around one text leaf, and whose other children are
/// `children` in their order.
pub fn head(title: String, children: Vec<HtmlNode>) -> (node: HtmlNode)
    ensures
        node@ == (Markup::Element {
            name: "head"@,
            attributes: Seq::empty(),
            children: seq![title_markup(title@)] + models(children@),
        }),
{
    let mut title_children: Vec<HtmlNode> = Vec::new();
    title_children.push(HtmlNode::Text { content: title });
    let title_node = new_node("title", Attributes::new(), title_children);
    assert(title_node@->Element_children =~= seq![Markup::Text { content: title@ }]);
    let mut all = children;
    all.insert(0, title_node);
    assert(models(all@) =~= seq![title_markup(title@)] + models(children@));
    new_node("head", Attributes::new(), all)
}

/// A document body: a `body` element around `children`.
pub fn body(children: Vec<HtmlNode>) -> (node: HtmlNode)
    ensures
        node@ == (Markup::Element {
            name: "body"@,
            attributes: Seq::empty(),
            children: models(children@),
        }),
{
    new_node("body", Attributes::new(), children)
}

/// A block: a `div` element with the given attributes around `children`.
pub fn div(attributes: Attributes, children: Vec<HtmlNode>) -> (node: HtmlNode)
    ensures
        node@ == (Markup::Element {
            name: "div"@,
            attributes: attributes@,
            children: models(children@),
        }),
{
    new_node("div", attributes, children)
}

/// An image: a self-closing `img` tag whose attributes are `src` followed by
/// `attributes`. Where `attributes` has a `src` of its own, that value stands.
pub fn img(src: String, attributes: Attributes) -> (node: HtmlNode)
    ensures
        node@ == (Markup::SelfClosing {
            name: "img"@,
            attributes: image_attributes(src@, attributes@),
        }),
{
    let mut merged = Attributes::new();
    merged.insert("src".to_owned(), src);
    assert(merged@ =~= seq![("src"@, src@)]);
    merged.extend(&attributes);
    new_self_closing_node("img", merged)
}

/// A line break: a self-closing `br` tag without attributes.
pub fn br() -> (node: HtmlNode)
    ensures
        node@ == (Markup::SelfClosing { name: "br"@, attributes: Seq::empty() }),
{
    new_self_closing_node("br", Attributes::new())
}

} // verus!
