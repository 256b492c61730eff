//! What the rendered text of each kind of node looks like, proved from the
//! definition of [`rendered`].

use vstd::prelude::*;
use crate::attributes::Pair;
use crate::node::Markup;
use crate::render::{
    attribute_list, attribute_text, closing_tag, indentation, join_lines, rendered,
    rendered_each, tag_start,
};

verus! {

/// The indentation at depth `level` is `4 * level` characters long and holds
/// nothing but spaces.
pub proof fn lemma_indentation_is_spaces(level: nat)
    ensures
        indentation(level).len() == 4 * level,
        forall|i: int| 0 <= i < 4 * level ==> indentation(level)[i] == ' ',
{
}

/// A text leaf renders as its indentation followed by its content, and by
/// nothing else: no tag stands around the content and no line break after it.
pub proof fn lemma_text_rendering(content: Seq<char>, level: nat)
    ensures
        ({
            let text = rendered(Markup::Text { content }, level);
            let start = 4 * level as int;
            &&& text == indentation(level) + content
            &&& text.len() == start + content.len()
            &&& text.subrange(0, start) == indentation(level)
            &&& text.subrange(start, start + content.len()) == content
        }),
{
    let text = rendered(Markup::Text { content }, level);
    let start = 4 * level as int;
    assert(text.subrange(0, start) =~= indentation(level));
    assert(text.subrange(start, start + content.len()) =~= content);
}

/// The attributes of two stretches of entries, one after the other, are the
/// attributes of the first followed by those of the second.
pub proof fn lemma_attribute_list_concat(first: Seq<Pair>, second: Seq<Pair>)
    ensures
        attribute_list(first + second) == attribute_list(first) + attribute_list(second),
    decreases second.len(),
{
    if second.len() == 0 {
        assert(first + second =~= first);
        assert(attribute_list(first) + attribute_list(second) =~= attribute_list(first));
    } else {
        assert((first + second).drop_last() =~= first + second.drop_last());
        assert((first + second).last() == second.last());
        lemma_attribute_list_concat(first, second.drop_last());
        assert(attribute_list(first + second) =~= attribute_list(first) + attribute_list(second));
    }
}

/// Where the text of the entry at `index` begins within the attribute list.
pub open spec fn attribute_offset(entries: Seq<Pair>, index: int) -> int {
    attribute_list(entries.take(index)).len() as int
}

/// The entry at `index` stands in the attribute list as `name="value"` and a
/// space, between the entries before it and the entries after it. Its stretch
/// ends where the next one begins, so the list is made of one stretch for each
/// entry and of nothing else.
pub proof fn lemma_attribute_list_entry(entries: Seq<Pair>, index: int)
    requires
        0 <= index < entries.len(),
    ensures
        attribute_list(entries) == attribute_list(entries.take(index)) + attribute_text(
            entries[index],
        ) + attribute_list(entries.skip(index + 1)),
        attribute_offset(entries, index + 1) == attribute_offset(entries, index) + attribute_text(
            entries[index],
        ).len(),
        attribute_offset(entries, index + 1) <= attribute_list(entries).len(),
        attribute_list(entries).subrange(
            attribute_offset(entries, index),
            attribute_offset(entries, index + 1),
        ) == attribute_text(entries[index]),
        attribute_offset(entries, 0) == 0,
        attribute_offset(entries, entries.len() as int) == attribute_list(entries).len(),
{
    let before = entries.take(index);
    let upto = entries.take(index + 1);
    let after = entries.skip(index + 1);
    assert(upto.drop_last() =~= before);
    assert(upto.last() == entries[index]);
    assert(upto + after =~= entries);
    lemma_attribute_list_concat(upto, after);
    assert(attribute_list(entries) =~= attribute_list(before) + attribute_text(entries[index])
        + attribute_list(after));
    assert(attribute_list(entries).subrange(
        attribute_offset(entries, index),
        attribute_offset(entries, index + 1),
    ) =~= attribute_text(entries[index]));
    assert(entries.take(0) =~= Seq::<Pair>::empty());
    assert(entries.take(entries.len() as int) =~= entries);
}

/// The part of a self-closing tag that precedes its attributes: the
/// indentation, `<`, the name and one space.
pub open spec fn tag_prefix(name: Seq<char>, level: nat) -> Seq<char> {
    indentation(level) + seq!['<'] + name + seq![' ']
}

/// A self-closing tag renders as one stretch of text: its indentation, `<`,
/// its name and a space; then one `name="value"` and a space for each
/// attribute, each exactly once and in the order of the attributes; then `/>`.
pub proof fn lemma_self_closing_rendering(name: Seq<char>, attributes: Seq<Pair>, level: nat)
    ensures
        ({
            let text = rendered(Markup::SelfClosing { name, attributes }, level);
            let prefix = tag_prefix(name, level);
            let start = prefix.len() as int;
            &&& text == prefix + attribute_list(attributes) + seq!['/', '>']
            &&& prefix.is_prefix_of(text)
            &&& seq!['/', '>'].is_suffix_of(text)
            &&& forall|i: int|
                #![trigger attributes[i]]
                0 <= i < attributes.len() ==> text.subrange(
                    start + attribute_offset(attributes, i),
                    start + attribute_offset(attributes, i + 1),
                ) == attribute_text(attributes[i])
            &&& text.len() == start + attribute_offset(attributes, attributes.len() as int) + 2
        }),
{
    let text = rendered(Markup::SelfClosing { name, attributes }, level);
    let prefix = tag_prefix(name, level);
    let start = prefix.len() as int;
    let list = attribute_list(attributes);
    let tail = seq!['/', '>'];
    assert(text =~= prefix + list + tail);
    assert(text.subrange(0, start) =~= prefix);
    assert(text.subrange(text.len() - tail.len(), text.len() as int) =~= tail);
    assert(attributes.take(attributes.len() as int) =~= attributes);
    assert forall|i: int| #![trigger attributes[i]] 0 <= i < attributes.len() implies text.subrange(
        start + attribute_offset(attributes, i),
        start + attribute_offset(attributes, i + 1),
    ) == attribute_text(attributes[i]) by {
        lemma_attribute_list_entry(attributes, i);
        let from = attribute_offset(attributes, i);
        let to = attribute_offset(attributes, i + 1);
        assert(text.subrange(start + from, start + to) =~= list.subrange(from, to));
    }
}

/// Joining one more block puts a line break in front of it, unless it is the
/// only one.
pub proof fn lemma_join_lines_push(blocks: Seq<Seq<char>>, block: Seq<char>)
    ensures
        join_lines(blocks.push(block)) == if blocks.len() == 0 {
            block
        } else {
            join_lines(blocks) + seq!['\n'] + block
        },
{
    assert(blocks.push(block).drop_last() =~= blocks);
    assert(blocks.push(block).last() == block);
}

/// Joining blocks behind a first one puts a line break after the first,
/// unless it stays alone.
pub proof fn lemma_join_lines_front(first: Seq<char>, rest: Seq<Seq<char>>)
    ensures
        join_lines(seq![first] + rest) == if rest.len() == 0 {
            first
        } else {
            first + seq!['\n'] + join_lines(rest)
        },
    decreases rest.len(),
{
    if rest.len() == 0 {
        assert(seq![first] + rest =~= seq![first]);
    } else {
        let all = seq![first] + rest;
        assert(all.drop_last() =~= seq![first] + rest.drop_last());
        assert(all.last() == rest.last());
        lemma_join_lines_front(first, rest.drop_last());
        if rest.len() == 1 {
            assert(rest.drop_last() =~= Seq::<Seq<char>>::empty());
            assert(join_lines(all) =~= first + seq!['\n'] + join_lines(rest));
        } else {
            assert(join_lines(all) =~= first + seq!['\n'] + join_lines(rest));
        }
    }
}

/// The opening line of a container: its indentation, the start of the tag with
/// the attributes, and `>`.
pub open spec fn opening_line(name: Seq<char>, attributes: Seq<Pair>, level: nat) -> Seq<char> {
    indentation(level) + tag_start(name, attributes) + seq!['>']
}

/// The closing line of a container: its indentation and `</name>`.
pub open spec fn closing_line(name: Seq<char>, level: nat) -> Seq<char> {
    indentation(level) + closing_tag(name)
}

/// What stands between the opening and the closing line of a container: the
/// text of each child one level deeper, or one empty block where there is no
/// child.
pub open spec fn middle_blocks(children: Seq<Markup>, level: nat) -> Seq<Seq<char>> {
    if children.len() == 0 {
        seq![Seq::<char>::empty()]
    } else {
        rendered_each(children, level + 1)
    }
}

/// The blocks a rendered container is made of: the opening line, the middle
/// blocks and the closing line.
pub open spec fn container_blocks(
    name: Seq<char>,
    attributes: Seq<Pair>,
    children: Seq<Markup>,
    level: nat,
) -> Seq<Seq<char>> {
    seq![opening_line(name, attributes, level)] + middle_blocks(children, level) + seq![
        closing_line(name, level),
    ]
}

/// A container renders as blocks separated by single line breaks: the opening
/// line, then the text of each child in order, one level deeper, then the
/// closing line. With children these are two blocks more than there are
/// children; without children the one block in the middle is empty, so two
/// line breaks follow each other.
pub proof fn lemma_container_rendering(
    name: Seq<char>,
    attributes: Seq<Pair>,
    children: Seq<Markup>,
    level: nat,
)
    ensures
        rendered(Markup::Element { name, attributes, children }, level) == join_lines(
            container_blocks(name, attributes, children, level),
        ),
        children.len() > 0 ==> container_blocks(name, attributes, children, level).len() == 2
            + children.len(),
        children.len() == 0 ==> container_blocks(name, attributes, children, level) == seq![
            opening_line(name, attributes, level),
            Seq::<char>::empty(),
            closing_line(name, level),
        ],
        container_blocks(name, attributes, children, level).first() == opening_line(
            name,
            attributes,
            level,
        ),
        forall|i: int|
            #![trigger children[i]]
            0 <= i < children.len() ==> container_blocks(name, attributes, children, level)[i + 1]
                == rendered(children[i], level + 1),
        container_blocks(name, attributes, children, level).last() == closing_line(name, level),
{
    let text = rendered(Markup::Element { name, attributes, children }, level);
    let open = opening_line(name, attributes, level);
    let close = closing_line(name, level);
    let middle = middle_blocks(children, level);
    let blocks = container_blocks(name, attributes, children, level);
    assert(join_lines(middle) == join_lines(rendered_each(children, level + 1))) by {
        if children.len() == 0 {
            assert(rendered_each(children, level + 1) =~= Seq::<Seq<char>>::empty());
        }
    }
    assert(blocks =~= (seq![open] + middle).push(close));
    lemma_join_lines_push(seq![open] + middle, close);
    lemma_join_lines_front(open, middle);
    assert(text =~= open + seq!['\n'] + join_lines(middle) + seq!['\n'] + close);
    if children.len() == 0 {
        assert(blocks =~= seq![open, Seq::<char>::empty(), close]);
    }
}

} // verus!
