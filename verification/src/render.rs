//! Rendering of a markup tree to indented text.
//!
//! The text of a tree is defined on its model, [`Markup`], by [`rendered`];
//! [`HtmlNode::render`] computes exactly that text. Nothing is escaped: names,
//! attribute values and raw text appear as they were given.

use vstd::prelude::*;
use vstd::string::StringExecFns;
use crate::attributes::{Attributes, Pair};
use crate::node::{models, HtmlNode, Markup};

verus! {

/// The indentation that precedes a line at nesting depth `level`: four spaces
/// per level.
pub open spec fn indentation(level: nat) -> Seq<char> {
    Seq::new(4 * level, |i: int| ' ')
}

/// One attribute as it stands in a tag: `name="value"` and one space.
pub open spec fn attribute_text(pair: Pair) -> Seq<char> {
    pair.0 + seq!['=', '"'] + pair.1 + seq!['"', ' ']
}

/// The attributes of a tag, one after the other in their order.
pub open spec fn attribute_list(entries: Seq<Pair>) -> Seq<char>
    decreases entries.len(),
{
    if entries.len() == 0 {
        Seq::empty()
    } else {
        attribute_list(entries.drop_last()) + attribute_text(entries.last())
    }
}

/// The start of a tag up to the end of its attributes: `<name`, one space,
/// then the attributes. The space is there even without attributes.
pub open spec fn tag_start(name: Seq<char>, attributes: Seq<Pair>) -> Seq<char> {
    seq!['<'] + name + seq![' '] + attribute_list(attributes)
}

/// The closing line of a container, without its indentation: `</name>`.
pub open spec fn closing_tag(name: Seq<char>) -> Seq<char> {
    seq!['<', '/'] + name + seq!['>']
}

/// The blocks one below the other: a line break between each two neighbours,
/// none before the first and none after the last.
pub open spec fn join_lines(blocks: Seq<Seq<char>>) -> Seq<char>
    decreases blocks.len(),
{
    if blocks.len() == 0 {
        Seq::empty()
    } else if blocks.len() == 1 {
        blocks[0]
    } else {
        join_lines(blocks.drop_last()) + seq!['\n'] + blocks.last()
    }
}

/// The text of `node` at nesting depth `level`.
///
/// A text leaf is its indentation and its content. A self-closing tag is one
/// line that ends in `/>`. A container is its opening line, its children one
/// level deeper and one below the other, and its closing line; without
/// children the part between the two line breaks is empty.
pub open spec fn rendered(node: Markup, level: nat) -> Seq<char>
    decreases node,
{
    match node {
        Markup::Text { content } => indentation(level) + content,
        Markup::SelfClosing { name, attributes } => indentation(level) + tag_start(
            name,
            attributes,
        ) + seq!['/', '>'],
        Markup::Element { name, attributes, children } => indentation(level) + tag_start(
            name,
            attributes,
        ) + seq!['>', '\n'] + join_lines(rendered_each(children, level + 1)) + seq!['\n']
            + indentation(level) + closing_tag(name),
    }
}

/// The text of every node of `nodes` at nesting depth `level`, in order.
pub open spec fn rendered_each(nodes: Seq<Markup>, level: nat) -> Seq<Seq<char>>
    decreases nodes,
{
    Seq::new(
        nodes.len(),
        |i: int|
            if 0 <= i < nodes.len() {
                rendered(nodes[i], level)
            } else {
                Seq::empty()
            },
    )
}

/// Builds the indentation for nesting depth `indent`.
pub fn padding(indent: u8) -> (pad: String)
    ensures
        pad@ == indentation(indent as nat),
{
    let mut pad = String::new();
    let mut done: u8 = 0;
    while done < indent
        invariant
            done <= indent,
            pad@ == indentation(done as nat),
        decreases indent - done,
    {
        proof {
            reveal_strlit("    ");
        }
        pad.append("    ");
        done = done + 1;
    }
    pad
}

/// Writes the attributes of a tag, one after the other in their order.
fn render_attributes(attributes: &Attributes) -> (text: String)
    ensures
        text@ == attribute_list(attributes@),
{
    let mut text = String::new();
    let count = attributes.len();
    let mut done: usize = 0;
    while done < count
        invariant
            done <= count,
            count == attributes@.len(),
            text@ == attribute_list(attributes@.take(done as int)),
        decreases count - done,
    {
        let (name, value) = attributes.entry(done);
        proof {
            reveal_strlit("=\"");
            reveal_strlit("\" ");
            assert(attributes@.take(done + 1).drop_last() =~= attributes@.take(done as int));
        }
        text.append(name);
        text.append("=\"");
        text.append(value);
        text.append("\" ");
        done = done + 1;
    }
    assert(attributes@.take(count as int) =~= attributes@);
    text
}

/// One level deeper the indentation is four spaces longer.
pub proof fn lemma_indentation_step(level: nat)
    ensures
        indentation(level + 1) == indentation(level) + seq![' ', ' ', ' ', ' '],
{
    assert(indentation(level + 1) =~= indentation(level) + seq![' ', ' ', ' ', ' ']);
}

impl HtmlNode {
    /// Renders the tree below this node as indented text, starting at nesting
    /// depth `indent`.
    ///
    /// The text depends on the tree and on `indent` alone, and the tree is
    /// left as it was: rendering again gives the same text.
    pub fn render(&self, indent: u8) -> (text: String)
        ensures
            text@ == rendered(self@, indent as nat),
    {
        let pad = padding(indent);
        self.render_indented(pad.as_str(), Ghost(indent as nat))
    }

    /// Renders the tree below this node with `pad` as the indentation of its
    /// own lines. Carrying the indentation as text keeps the depth of a tree
    /// free of any numeric bound.
    fn render_indented(&self, pad: &str, Ghost(level): Ghost<nat>) -> (text: String)
        requires
            pad@ == indentation(level),
        ensures
            text@ == rendered(self@, level),
        decreases self, 0nat,
    {
        let mut text = String::from_str(pad);
        match self {
            HtmlNode::Text { content } => {
                text.append(content.as_str());
            },
            HtmlNode::SelfClosing { name, attributes } => {
                let list = render_attributes(attributes);
                proof {
                    reveal_strlit("<");
                    reveal_strlit(" ");
                    reveal_strlit("/>");
                }
                text.append("<");
                text.append(name.as_str());
                text.append(" ");
                text.append(list.as_str());
                text.append("/>");
            },
            HtmlNode::Element { name, attributes, children } => {
                let list = render_attributes(attributes);
                proof {
                    reveal_strlit("<");
                    reveal_strlit(" ");
                    reveal_strlit(">\n");
                    reveal_strlit("\n");
                    reveal_strlit("    ");
                    reveal_strlit("</");
                    reveal_strlit(">");
                    lemma_indentation_step(level);
                    assert(self@->Element_children =~= models(children@));
                }
                let deeper = String::from_str(pad).concat("    ");
                assert(deeper@ == indentation(level + 1));
                let body = render_children(children, deeper.as_str(), Ghost(level + 1));
                text.append("<");
                text.append(name.as_str());
                text.append(" ");
                text.append(list.as_str());
                text.append(">\n");
                text.append(body.as_str());
                text.append("\n");
                text.append(pad);
                text.append("</");
                text.append(name.as_str());
                text.append(">");
            },
        }
        text
    }
}

/// Renders `children` one below the other, each with `pad` as the indentation
/// of its own lines.
fn render_children(children: &Vec<HtmlNode>, pad: &str, Ghost(level): Ghost<nat>) -> (text: String)
    requires
        pad@ == indentation(level),
    ensures
        text@ == join_lines(rendered_each(models(children@), level)),
    decreases children, 1nat,
{
    let ghost blocks = rendered_each(models(children@), level);
    let mut text = String::new();
    let mut done: usize = 0;
    while done < children.len()
        invariant
            done <= children.len(),
            pad@ == indentation(level),
            blocks == rendered_each(models(children@), level),
            text@ == join_lines(blocks.take(done as int)),
        decreases children.len() - done,
    {
        let block = children[done].render_indented(pad, Ghost(level));
        proof {
            reveal_strlit("\n");
            assert(blocks.take(done + 1).drop_last() =~= blocks.take(done as int));
            assert(blocks.take(done + 1).last() == block@);
        }
        if done > 0 {
            text.append("\n");
        }
        text.append(block.as_str());
        done = done + 1;
    }
    assert(blocks.take(children@.len() as int) =~= blocks);
    text
}

} // verus!
