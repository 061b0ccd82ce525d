//! The grammar that the tree builder reads, as functions from a character
//! sequence and a position to what is read there and the position behind it.

use vstd::prelude::*;
use crate::html::NodeView;
use crate::pattern::regex_matches;
use crate::scan::{
    exactly, first_match, last_kept, lemma_first_match, lemma_first_match_is, non_blank, one_of,
    other_than,
};
use crate::text::trimmed;

verus! {

/// `s` without the occurrences of `c`.
pub open spec fn without(s: Seq<char>, c: char) -> Seq<char>
    decreases s.len(),
{
    if s.len() == 0 {
        s
    } else if s.last() == c {
        without(s.drop_last(), c)
    } else {
        without(s.drop_last(), c).push(s.last())
    }
}

/// The pattern of one attribute: a key without whitespace or `=`, then `=`,
/// then a value between double quotes that holds no double quote.
pub open spec fn pair_pattern() -> Seq<char> {
    "[^\\s=]+=\"[^\"]*\""@
}

/// The attribute pairs that the pattern finds in `text`, in the order in
/// which the engine reports them; none where it refuses the pattern.
pub open spec fn matched_pairs(text: Seq<char>) -> Seq<Seq<char>> {
    match regex_matches(pair_pattern(), text) {
        Some(found) => found,
        None => Seq::empty(),
    }
}

/// The mapping that a list of `key="value"` texts stands for: each text is
/// split at its first `=`, the value loses its double quotes, a later pair
/// overwrites an earlier one with the same key, and a text without `=`
/// counts for nothing.
pub open spec fn pairs_map(pairs: Seq<Seq<char>>) -> Map<Seq<char>, Seq<char>>
    decreases pairs.len(),
{
    if pairs.len() == 0 {
        Map::empty()
    } else {
        let before = pairs_map(pairs.drop_last());
        let pair = pairs.last();
        let eq = first_match(pair, 0, exactly('='));
        if eq < pair.len() {
            before.insert(pair.subrange(0, eq), without(pair.subrange(eq + 1, pair.len() as int), '"'))
        } else {
            before
        }
    }
}

/// The attributes that the text between a tag name and `>` declares.
pub open spec fn attributes_of(text: Seq<char>) -> Map<Seq<char>, Seq<char>> {
    if trimmed(text).len() == 0 {
        Map::empty()
    } else {
        pairs_map(matched_pairs(trimmed(text)))
    }
}

/// The tag name that the text read up to a space or `>` stands for: the text
/// without its leading `<` and its trailing `/`.
pub open spec fn tag_of(raw: Seq<char>) -> Seq<char> {
    let from = first_match(raw, 0, other_than('<'));
    raw.subrange(from, last_kept(raw, from, raw.len() as int, exactly('/')))
}

/// Whether `tag` names an element that never has content.
pub open spec fn is_self_closing(tag: Seq<char>) -> bool {
    tag == "meta"@ || tag == "link"@ || tag == "input"@ || tag == "img"@ || tag == "br"@
}

/// The value of the text node that holds `content`.
pub open spec fn text_node(content: Seq<char>) -> NodeView {
    NodeView {
        tag_name: "text"@,
        attributes: Map::<Seq<char>, Seq<char>>::empty().insert("content"@, content),
        children: Seq::empty(),
    }
}

/// The position behind the first `c` at or after `from`, or the end of `s`.
pub open spec fn after(s: Seq<char>, from: int, c: char) -> int {
    let at = first_match(s, from, exactly(c));
    if at < s.len() {
        at + 1
    } else {
        at
    }
}

/// Where the tag name that starts at `pos` ends.
pub open spec fn name_end(s: Seq<char>, pos: int) -> int {
    first_match(s, pos, one_of(seq![' ', '>']))
}

/// The position behind the tag name that starts at `pos`: the space that
/// ends a name is consumed, a `>` is not.
pub open spec fn name_next(s: Seq<char>, pos: int) -> int {
    let end = name_end(s, pos);
    if end < s.len() && s[end] == ' ' {
        end + 1
    } else {
        end
    }
}

/// The node that the grammar reads from position `pos` of `s`, and the
/// position behind it: the tag name, the attribute section through its `>`,
/// blanks, and, unless the element is self-closing, the content and the
/// blanks behind it. No node is read where the tag name starts with `/`; the
/// cursor then stands behind the name. Where `s` ends early, each part reads
/// what is there.
pub open spec fn node_at(s: Seq<char>, pos: int) -> (Option<NodeView>, int)
    decreases s.len() - pos, 1int,
{
    if pos < 0 || pos > s.len() {
        (None, pos)
    } else {
        let tag = tag_of(s.subrange(pos, name_end(s, pos)));
        let p1 = name_next(s, pos);
        if tag.len() > 0 && tag[0] == '/' {
            (None, p1)
        } else {
            let attr_end = first_match(s, p1, exactly('>'));
            let attributes = attributes_of(s.subrange(p1, attr_end));
            let p3 = first_match(s, after(s, p1, '>'), non_blank());
            if is_self_closing(tag) {
                (Some(NodeView { tag_name: tag, attributes, children: Seq::empty() }), p3)
            } else {
                proof {
                    lemma_first_match(s, pos, one_of(seq![' ', '>']));
                    lemma_first_match(s, p1, exactly('>'));
                    lemma_first_match(s, after(s, p1, '>'), non_blank());
                }
                let content = content_at(s, p3);
                (
                    Some(NodeView { tag_name: tag, attributes, children: content.0 }),
                    first_match(s, content.1, non_blank()),
                )
            }
        }
    }
}

/// The children that the grammar reads from position `pos` of `s` up to the
/// closing tag of their parent, and the position behind that tag. A run of
/// text up to the next `<` is a text node, and reading goes on behind it;
/// `</` closes the parent, through the next `>`; `<!` opens a comment, which
/// is passed over through the next `>` with the blanks behind it; any other
/// `<` opens a child element, which is left out where no node is read for it.
/// The end of `s`, also right behind a `<`, ends the content. A child never
/// ends at or before its `<` (`lemma_content_at_advances`), so the test for
/// that only serves termination.
pub open spec fn content_at(s: Seq<char>, pos: int) -> (Seq<NodeView>, int)
    decreases s.len() - pos, 0int,
{
    if pos < 0 || pos >= s.len() {
        (Seq::empty(), pos)
    } else if s[pos] != '<' {
        proof {
            lemma_first_match(s, pos + 1, exactly('<'));
        }
        let end = first_match(s, pos, exactly('<'));
        let rest = content_at(s, end);
        (seq![text_node(s.subrange(pos, end))] + rest.0, rest.1)
    } else if pos + 1 >= s.len() {
        (Seq::empty(), pos + 1)
    } else if s[pos + 1] == '/' {
        (Seq::empty(), after(s, pos + 1, '>'))
    } else if s[pos + 1] == '!' {
        proof {
            lemma_first_match(s, pos + 1, exactly('>'));
            lemma_first_match(s, after(s, pos + 1, '>'), non_blank());
        }
        content_at(s, first_match(s, after(s, pos + 1, '>'), non_blank()))
    } else {
        let child = node_at(s, pos + 1);
        if child.1 <= pos || child.1 > s.len() {
            (Seq::empty(), child.1)
        } else {
            let rest = content_at(s, child.1);
            match child.0 {
                Some(node) => (seq![node] + rest.0, rest.1),
                None => rest,
            }
        }
    }
}

/// Reading a node never moves the cursor back nor past the end.
pub proof fn lemma_node_at_advances(s: Seq<char>, pos: int)
    requires
        0 <= pos <= s.len(),
    ensures
        pos <= node_at(s, pos).1 <= s.len(),
    decreases s.len() - pos, 1int,
{
    lemma_first_match(s, pos, one_of(seq![' ', '>']));
    let tag = tag_of(s.subrange(pos, name_end(s, pos)));
    let p1 = name_next(s, pos);
    lemma_first_match(s, p1, exactly('>'));
    lemma_first_match(s, after(s, p1, '>'), non_blank());
    let p3 = first_match(s, after(s, p1, '>'), non_blank());
    if !(tag.len() > 0 && tag[0] == '/') && !is_self_closing(tag) {
        lemma_content_at_advances(s, p3);
        lemma_first_match(s, content_at(s, p3).1, non_blank());
    }
}

/// Reading the content of an element never moves the cursor back nor past the
/// end; so the test on the child's end in `content_at` never stops the
/// reading.
pub proof fn lemma_content_at_advances(s: Seq<char>, pos: int)
    requires
        0 <= pos <= s.len(),
    ensures
        pos <= content_at(s, pos).1 <= s.len(),
        pos + 1 < s.len() && s[pos] == '<' && s[pos + 1] != '/' && s[pos + 1] != '!' ==> pos
            < node_at(s, pos + 1).1 <= s.len(),
    decreases s.len() - pos, 0int,
{
    if pos >= s.len() {
    } else if s[pos] != '<' {
        lemma_first_match(s, pos + 1, exactly('<'));
        lemma_content_at_advances(s, first_match(s, pos, exactly('<')));
    } else if pos + 1 >= s.len() {
    } else if s[pos + 1] == '/' {
        lemma_first_match(s, pos + 1, exactly('>'));
    } else if s[pos + 1] == '!' {
        lemma_first_match(s, pos + 1, exactly('>'));
        lemma_first_match(s, after(s, pos + 1, '>'), non_blank());
        lemma_content_at_advances(s, first_match(s, after(s, pos + 1, '>'), non_blank()));
    } else {
        lemma_node_at_advances(s, pos + 1);
        lemma_content_at_advances(s, node_at(s, pos + 1).1);
    }
}

/// An element of the self-closing set has no children, whatever follows it.
pub proof fn lemma_self_closing_has_no_children(s: Seq<char>, pos: int)
    requires
        node_at(s, pos).0 is Some,
        is_self_closing(node_at(s, pos).0->0.tag_name),
    ensures
        node_at(s, pos).0->0.children.len() == 0,
{
}

/// A comment among the children of an element adds no node and does not end
/// the content: reading goes on behind the comment and the blanks after it.
pub proof fn lemma_comment_is_skipped(s: Seq<char>, pos: int)
    requires
        0 <= pos,
        pos + 1 < s.len(),
        s[pos] == '<',
        s[pos + 1] == '!',
    ensures
        content_at(s, pos) == content_at(
            s,
            first_match(s, after(s, pos + 1, '>'), non_blank()),
        ),
{
}

/// Scanning for one character is scanning for a set of one.
pub proof fn lemma_single_stop(s: Seq<char>, from: int, c: char)
    requires
        0 <= from <= s.len(),
    ensures
        first_match(s, from, one_of(seq![c])) == first_match(s, from, exactly(c)),
{
    let at = first_match(s, from, exactly(c));
    lemma_first_match(s, from, exactly(c));
    assert(seq![c][0] == c);
    lemma_first_match_is(s, from, one_of(seq![c]), at);
}

} // verus!
