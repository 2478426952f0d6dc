//! What holds of lines, of indentation, and of the markup of every tree.

use crate::attribute::{
    attributes_markup, distinct_names, has_name, lemma_attributes_markup_push,
    lemma_with_entry_distinct, position_of, with_entry, SpecAttribute, SpecAttributeValue,
};
use crate::component::{renders_to, Component};
use crate::node::{Node, SpecNode};
use crate::text::{
    digit, digits, indented, joined, lemma_joined_push, lemma_lines_hold_no_line_feed,
    lemma_lines_nonempty, lines,
};
use vstd::prelude::*;

verus! {

/// A text without a line feed is one line.
pub proof fn lemma_lines_of_one_line(line: Seq<char>)
    requires
        !line.contains('\n'),
    ensures
        lines(line) == seq![line],
    decreases line.len(),
{
    if line.len() > 0 {
        let shorter = line.drop_last();
        assert(!shorter.contains('\n')) by {
            if shorter.contains('\n') {
                let i = choose|i: int| 0 <= i < shorter.len() && shorter[i] == '\n';
                assert(line[i] == '\n');
            }
        }
        lemma_lines_of_one_line(shorter);
        assert(line.last() != '\n') by {
            assert(line[line.len() - 1] == line.last());
        }
        assert(shorter.push(line.last()) == line);
        assert(seq![shorter].update(0, line) == seq![line]);
    } else {
        assert(line == Seq::<char>::empty());
    }
}

/// The lines of two texts with a line feed between them are the lines of the
/// first followed by the lines of the second.
pub proof fn lemma_lines_of_two_parts(first: Seq<char>, rest: Seq<char>)
    ensures
        lines(first + "\n"@ + rest) == lines(first) + lines(rest),
    decreases rest.len(),
{
    reveal_strlit("\n");
    let whole = first + "\n"@ + rest;
    if rest.len() == 0 {
        assert(whole.drop_last() == first);
        assert(lines(first).push(Seq::empty()) == lines(first) + seq![Seq::<char>::empty()]);
    } else {
        let shorter = rest.drop_last();
        assert(whole.drop_last() == first + "\n"@ + shorter);
        assert(whole.last() == rest.last());
        lemma_lines_of_two_parts(first, shorter);
        lemma_lines_nonempty(shorter);
        let a = lines(first);
        let b = lines(shorter);
        if rest.last() == '\n' {
            assert((a + b).push(Seq::empty()) == a + b.push(Seq::empty()));
        } else {
            assert((a + b).last() == b.last());
            assert((a + b).update((a + b).len() - 1, b.last().push(rest.last())) == a + b.update(
                b.len() - 1,
                b.last().push(rest.last()),
            ));
        }
    }
}

/// Joining two runs of pieces joins each and puts one separator between.
pub proof fn lemma_joined_of_two_runs(
    first: Seq<Seq<char>>,
    rest: Seq<Seq<char>>,
    separator: Seq<char>,
)
    requires
        first.len() >= 1,
        rest.len() >= 1,
    ensures
        joined(first + rest, separator) == joined(first, separator) + separator + joined(
            rest,
            separator,
        ),
    decreases rest.len(),
{
    if rest.len() == 1 {
        assert(first + rest == first.push(rest[0]));
        lemma_joined_push(first, separator, rest[0]);
    } else {
        let shorter = rest.drop_last();
        assert((first + rest).drop_last() == first + shorter);
        assert((first + rest).last() == rest.last());
        lemma_joined_of_two_runs(first, shorter, separator);
        assert(joined(first, separator) + separator + joined(shorter, separator) + separator
            + rest.last() == joined(first, separator) + separator + (joined(shorter, separator)
            + separator + rest.last()));
    }
}

/// Joining pieces that hold no line feed by line feeds, and splitting the
/// result into lines, gives the pieces back.
pub proof fn lemma_lines_of_joined(parts: Seq<Seq<char>>)
    requires
        parts.len() >= 1,
        forall|i: int| 0 <= i < parts.len() ==> !(#[trigger] parts[i]).contains('\n'),
    ensures
        lines(joined(parts, "\n"@)) == parts,
    decreases parts.len(),
{
    if parts.len() == 1 {
        lemma_lines_of_one_line(parts[0]);
    } else {
        let shorter = parts.drop_last();
        assert forall|i: int| 0 <= i < shorter.len() implies !(#[trigger] shorter[i]).contains(
            '\n',
        ) by {
            assert(shorter[i] == parts[i]);
        }
        lemma_lines_of_joined(shorter);
        lemma_lines_of_one_line(parts.last());
        lemma_lines_of_two_parts(joined(shorter, "\n"@), parts.last());
        assert(shorter + seq![parts.last()] == parts);
    }
}

/// Indentation works line by line: the lines of the indented text are the
/// lines of the text, each with exactly two spaces in front.
pub proof fn lemma_indented_lines(text: Seq<char>)
    ensures
        lines(indented(text)) == lines(text).map_values(|line: Seq<char>| "  "@ + line),
{
    reveal_strlit("  ");
    let parts = lines(text).map_values(|line: Seq<char>| "  "@ + line);
    lemma_lines_nonempty(text);
    lemma_lines_hold_no_line_feed(text);
    assert forall|i: int| 0 <= i < parts.len() implies !(#[trigger] parts[i]).contains('\n') by {
        let line = lines(text)[i];
        assert(!line.contains('\n'));
        if parts[i].contains('\n') {
            let k = choose|k: int| 0 <= k < parts[i].len() && parts[i][k] == '\n';
            if k >= 2 {
                assert(line[k - 2] == '\n');
            }
        }
    }
    lemma_lines_of_joined(parts);
}

/// A text without a line feed is indented by two spaces in front of it.
pub proof fn lemma_indented_one_line(line: Seq<char>)
    requires
        !line.contains('\n'),
    ensures
        indented(line) == "  "@ + line,
{
    lemma_lines_of_one_line(line);
    assert(seq![line].map_values(|line: Seq<char>| "  "@ + line) == seq!["  "@ + line]);
}

/// Two texts with a line feed between them are indented each by itself.
pub proof fn lemma_indented_two_parts(first: Seq<char>, rest: Seq<char>)
    ensures
        indented(first + "\n"@ + rest) == indented(first) + "\n"@ + indented(rest),
{
    let prefix = |line: Seq<char>| "  "@ + line;
    lemma_lines_of_two_parts(first, rest);
    lemma_lines_nonempty(first);
    lemma_lines_nonempty(rest);
    assert((lines(first) + lines(rest)).map_values(prefix) == lines(first).map_values(prefix)
        + lines(rest).map_values(prefix));
    lemma_joined_of_two_runs(
        lines(first).map_values(prefix),
        lines(rest).map_values(prefix),
        "\n"@,
    );
}

/// The number that a decimal digit stands for.
pub open spec fn digit_value(c: char) -> nat {
    if c == '1' {
        1
    } else if c == '2' {
        2
    } else if c == '3' {
        3
    } else if c == '4' {
        4
    } else if c == '5' {
        5
    } else if c == '6' {
        6
    } else if c == '7' {
        7
    } else if c == '8' {
        8
    } else if c == '9' {
        9
    } else {
        0
    }
}

/// The number that a text of decimal digits stands for.
pub open spec fn numeral_value(numeral: Seq<char>) -> nat
    decreases numeral.len(),
{
    if numeral.len() == 0 {
        0
    } else {
        numeral_value(numeral.drop_last()) * 10 + digit_value(numeral.last())
    }
}

/// The digits of a number stand for that number, and start with a zero only
/// for zero itself.
pub proof fn lemma_digits_value(n: nat)
    ensures
        numeral_value(digits(n)) == n,
        digits(n).len() >= 1,
        digits(n)[0] == '0' <==> n == 0,
    decreases n,
{
    assert(digit_value(digit((n % 10) as int)) == n % 10);
    assert(digits(n).last() == digit((n % 10) as int));
    if n < 10 {
        assert(digits(n).drop_last() == Seq::<char>::empty());
        assert(numeral_value(Seq::<char>::empty()) == 0);
    } else {
        lemma_digits_value(n / 10);
        assert(digits(n).drop_last() == digits(n / 10));
    }
}

/// After a name is set, the entries hold it, with the value that was set.
pub proof fn lemma_with_entry_holds(
    attributes: Seq<SpecAttribute>,
    name: Seq<char>,
    value: SpecAttributeValue,
)
    requires
        distinct_names(attributes),
    ensures
        has_name(with_entry(attributes, name, value), name),
        with_entry(attributes, name, value)[position_of(
            with_entry(attributes, name, value),
            name,
        )] == (SpecAttribute { name, value }),
{
    let after = with_entry(attributes, name, value);
    lemma_with_entry_distinct(attributes, name, value);
    if has_name(attributes, name) {
        assert(after[position_of(attributes, name)].name == name);
    } else {
        assert(after[attributes.len() as int].name == name);
    }
}

/// Setting a name again replaces the value that was set before: only the last
/// value counts, and the place stays that of the first.
pub proof fn lemma_with_entry_twice(
    attributes: Seq<SpecAttribute>,
    name: Seq<char>,
    first: SpecAttributeValue,
    second: SpecAttributeValue,
)
    requires
        distinct_names(attributes),
    ensures
        with_entry(with_entry(attributes, name, first), name, second) == with_entry(
            attributes,
            name,
            second,
        ),
{
    let once = with_entry(attributes, name, first);
    lemma_with_entry_distinct(attributes, name, first);
    if has_name(attributes, name) {
        let p = position_of(attributes, name);
        assert(once[p].name == name);
        assert(position_of(once, name) == p);
    } else {
        let p = attributes.len() as int;
        assert(once[p].name == name);
        assert(position_of(once, name) == p);
    }
}

/// An element with two attributes of different names shows both in its
/// opening tag, in the order in which they were set, each once and each with
/// one space in front of it.
pub proof fn lemma_two_attributes_markup(
    tag: Seq<char>,
    first: SpecAttribute,
    second: SpecAttribute,
)
    requires
        first.name != second.name,
    ensures
        SpecNode::native(tag).with_attribute(first.name, first.value).with_attribute(
            second.name,
            second.value,
        ).markup() == "<"@ + tag + " "@ + first.markup() + " "@ + second.markup() + ">\n\n</"@
            + tag + ">"@,
{
    let one = SpecNode::native(tag).with_attribute(first.name, first.value);
    let two = one.with_attribute(second.name, second.value);
    assert(one.attributes == seq![first]);
    assert(!has_name(one.attributes, second.name));
    assert(two.attributes == seq![first, second]);
    lemma_attributes_markup_push(Seq::empty(), first);
    assert(Seq::<SpecAttribute>::empty().push(first) == seq![first]);
    lemma_attributes_markup_push(seq![first], second);
    assert(seq![first].push(second) == seq![first, second]);
    assert(attributes_markup(two.attributes) == " "@ + first.markup() + " "@ + second.markup());
    assert(two.children_markup() == Seq::<Seq<char>>::empty());
    lemma_bare_literals();
    lemma_regrouped_bare(
        "<"@ + tag,
        " "@ + first.markup() + " "@ + second.markup(),
        ">\n"@,
        "\n</"@,
        tag + ">"@,
    );
}

/// The text between the tags of an element without children.
proof fn lemma_bare_literals()
    ensures
        ">\n\n</"@ == ">\n"@ + "\n</"@,
{
    reveal_strlit(">\n");
    reveal_strlit("\n</");
    reveal_strlit(">\n\n</");
}

/// An element without children, written once with an empty text between the
/// two line feeds and once without it: the same text.
proof fn lemma_regrouped_bare(
    open: Seq<char>,
    attributes: Seq<char>,
    gt: Seq<char>,
    end: Seq<char>,
    close: Seq<char>,
)
    ensures
        open + attributes + gt + Seq::<char>::empty() + end + close == open + attributes + (gt
            + end) + close,
{
}

/// An element without children and without attributes is its opening tag, an
/// empty line, and its closing tag.
pub proof fn lemma_bare_element_markup(tag: Seq<char>)
    ensures
        SpecNode::native(tag).markup() == "<"@ + tag + ">\n\n</"@ + tag + ">"@,
{
    lemma_bare_literals();
    let node = SpecNode::native(tag);
    assert(node.children_markup() == Seq::<Seq<char>>::empty());
    assert(attributes_markup(node.attributes) == Seq::<char>::empty());
    assert("<"@ + tag + Seq::<char>::empty() + ">\n"@ + Seq::<char>::empty() + "\n</"@ + tag + ">"@
        == "<"@ + tag + ">\n\n</"@ + tag + ">"@);
}

/// A text node is its text and nothing else, whatever children or attributes
/// it was given.
pub proof fn lemma_text_markup(node: SpecNode)
    requires
        node.kind is Text,
    ensures
        node.markup() == node.kind->Text_0,
{
}

/// A component boundary is transparent: its markup is that of the tree which
/// the component rendered to, whatever children or attributes it was given.
pub proof fn lemma_boundary_is_transparent(node: SpecNode)
    requires
        node.kind is Custom,
    ensures
        node.markup() == node.kind->rendered.markup(),
{
}

/// A boundary around a component renders as what the component's view
/// returned: the boundary adds nothing to the markup and takes nothing away.
pub proof fn lemma_boundary_renders_as_view<C: Component>(component: &C, node: SpecNode)
    requires
        node.kind is Custom,
        renders_to(component, *node.kind->rendered),
    ensures
        exists|tree: SpecNode|
            #[trigger] renders_to(component, tree) && node.markup() == tree.markup(),
{
    assert(renders_to(component, *node.kind->rendered));
}

/// An element around one child is the opening tag, the child's markup
/// indented by one level, and the closing tag, each on lines of their own.
pub proof fn lemma_only_child_markup(tag: Seq<char>, child: SpecNode)
    ensures
        SpecNode::native(tag).with_child(child).markup() == "<"@ + tag + ">\n"@ + indented(
            child.markup(),
        ) + "\n</"@ + tag + ">"@,
{
    let node = SpecNode::native(tag).with_child(child);
    assert(node.children_markup() == seq![indented(child.markup())]);
    assert(attributes_markup(node.attributes) == Seq::<char>::empty());
    assert("<"@ + tag + Seq::<char>::empty() == "<"@ + tag);
}

/// Two texts without a line feed have none when put together.
proof fn lemma_one_line_concat(a: Seq<char>, b: Seq<char>)
    requires
        !a.contains('\n'),
        !b.contains('\n'),
    ensures
        !(a + b).contains('\n'),
{
    if (a + b).contains('\n') {
        let k = choose|k: int| 0 <= k < (a + b).len() && (a + b)[k] == '\n';
        if k < a.len() {
            assert(a[k] == '\n');
        } else {
            assert(b[k - a.len()] == '\n');
        }
    }
}

/// How the literals of nested markup are made of those of flat markup.
proof fn lemma_markup_literals()
    ensures
        !"<"@.contains('\n'),
        !"</"@.contains('\n'),
        !">"@.contains('\n'),
        !"  "@.contains('\n'),
        ">\n"@ == ">"@ + "\n"@,
        "\n</"@ == "\n"@ + "</"@,
        ">\n  <"@ == ">\n"@ + "  "@ + "<"@,
        ">\n    "@ == ">"@ + "\n"@ + "  "@ + "  "@,
        "\n  </"@ == "\n"@ + "  "@ + "</"@,
        ">\n</"@ == ">"@ + "\n</"@,
{
    reveal_strlit("<");
    reveal_strlit("</");
    reveal_strlit(">");
    reveal_strlit("\n");
    reveal_strlit("  ");
    reveal_strlit(">\n");
    reveal_strlit("\n</");
    reveal_strlit(">\n  <");
    reveal_strlit(">\n    ");
    reveal_strlit("\n  </");
    reveal_strlit(">\n</");
}

/// Indentation adds up: a text inside an element inside an element stands
/// four spaces in, the inner tags two.
pub proof fn lemma_nested_element_markup(outer: Seq<char>, inner: Seq<char>, text: Seq<char>)
    requires
        !inner.contains('\n'),
        !text.contains('\n'),
    ensures
        SpecNode::native(outer).with_child(
            SpecNode::native(inner).with_child(SpecNode::text(text)),
        ).markup() == "<"@ + outer + ">\n  <"@ + inner + ">\n    "@ + text + "\n  </"@ + inner
            + ">\n</"@ + outer + ">"@,
{
    lemma_markup_literals();
    let leaf = SpecNode::text(text);
    let middle = SpecNode::native(inner).with_child(leaf);
    let open = "<"@ + inner + ">"@;
    let body = "  "@ + text;
    let close = "</"@ + inner + ">"@;
    lemma_one_line_concat("<"@, inner);
    lemma_one_line_concat("<"@ + inner, ">"@);
    lemma_one_line_concat("  "@, text);
    lemma_one_line_concat("</"@, inner);
    lemma_one_line_concat("</"@ + inner, ">"@);
    assert(middle.markup() == open + "\n"@ + body + "\n"@ + close) by {
        lemma_only_child_markup(inner, leaf);
        lemma_indented_one_line(text);
    }
    assert(indented(middle.markup()) == "  "@ + open + "\n"@ + ("  "@ + body) + "\n"@ + ("  "@
        + close)) by {
        lemma_indented_two_parts(open + "\n"@ + body, close);
        lemma_indented_two_parts(open, body);
        lemma_indented_one_line(open);
        lemma_indented_one_line(body);
        lemma_indented_one_line(close);
    }
    lemma_only_child_markup(outer, middle);
    lemma_regrouped(outer, inner, text, "<"@, ">"@, "</"@, "\n"@, "  "@, "\n</"@);
}

/// The lines of a nested element, written once line by line and once as the
/// runs of fixed text between the three variable pieces: the same text.
proof fn lemma_regrouped(
    outer: Seq<char>,
    inner: Seq<char>,
    text: Seq<char>,
    lt: Seq<char>,
    gt: Seq<char>,
    lts: Seq<char>,
    nl: Seq<char>,
    sp: Seq<char>,
    end: Seq<char>,
)
    ensures
        lt + outer + (gt + nl) + (sp + (lt + inner + gt) + nl + (sp + (sp + text)) + nl + (sp + (lts
            + inner + gt))) + end + outer + gt == lt + outer + (gt + nl + sp + lt) + inner + (gt
            + nl + sp + sp) + text + (nl + sp + lts) + inner + (gt + end) + outer + gt,
{
}

/// The markup depends on nothing but the tree: two trees with the same model
/// have the same markup, so rendering a tree again gives the same text.
pub proof fn lemma_markup_is_deterministic(first: Node, second: Node)
    requires
        first@ == second@,
    ensures
        first@.markup() == second@.markup(),
{
}

} // verus!
