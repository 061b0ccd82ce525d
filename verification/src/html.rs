//! A recursive-descent HTML tree builder over a single forward cursor, and
//! the tree of element and text nodes that it produces.

use vstd::prelude::*;
use crate::grammar::{
    after, attributes_of, content_at, is_self_closing, lemma_single_stop, name_end, name_next,
    node_at, pairs_map, tag_of, text_node, without,
};
use crate::pattern::{find_all, texts};
use crate::scan::{
    blank, contains_char, exactly, first_match, lemma_first_match, lemma_first_match_is,
    lemma_last_kept_is, non_blank, one_of, other_than,
};
use crate::text::{to_chars, to_string, trim_bounds, trim_chars, trimmed};
use crate::textmap::TextMap;

verus! {

/// The mathematical value of a node: its tag name, its attributes and the
/// values of its children, in document order.
pub struct NodeView {
    pub tag_name: Seq<char>,
    pub attributes: Map<Seq<char>, Seq<char>>,
    pub children: Seq<NodeView>,
}

/// The tag name and the attributes of a node.
#[derive(Debug)]
pub struct NodeData {
    pub tag_name: String,
    pub attributes: TextMap,
}

/// An element or a text node; a parent owns its children.
#[derive(Debug)]
pub struct Node {
    pub children: Vec<Node>,
    pub data: NodeData,
}

/// The value of the node `n`.
pub open spec fn view_of(n: Node) -> NodeView
    decreases n,
{
    NodeView {
        tag_name: n.data.tag_name@,
        attributes: n.data.attributes@,
        children: Seq::new(
            n.children@.len(),
            |i: int|
                if 0 <= i < n.children@.len() {
                    view_of(n.children@[i])
                } else {
                    arbitrary()
                },
        ),
    }
}

/// The values of the nodes of `v`.
pub open spec fn views(v: Seq<Node>) -> Seq<NodeView> {
    Seq::new(v.len(), |i: int| view_of(v[i]))
}

/// The values of the nodes that the references of `v` point to.
pub open spec fn ref_views(v: Seq<&Node>) -> Seq<NodeView> {
    Seq::new(v.len(), |i: int| view_of(*v[i]))
}

impl View for Node {
    type V = NodeView;

    open spec fn view(&self) -> NodeView {
        view_of(*self)
    }
}

/// The children of a node's value are the values of its children.
pub proof fn lemma_view_children(n: Node)
    ensures
        n@.children == views(n.children@),
        n@.tag_name == n.data.tag_name@,
        n@.attributes == n.data.attributes@,
{
    assert(view_of(n).children =~= views(n.children@));
}

/// The nodes with tag name `tag` that a search below `n` collects, in
/// document order: a child with that tag name is collected and not searched,
/// any other child is searched.
pub open spec fn found_in(n: NodeView, tag: Seq<char>) -> Seq<NodeView>
    decreases n,
{
    found_among(n.children, tag)
}

/// What the search collects from the siblings `nodes` and from below them.
pub open spec fn found_among(nodes: Seq<NodeView>, tag: Seq<char>) -> Seq<NodeView>
    decreases nodes,
{
    if nodes.len() == 0 {
        Seq::empty()
    } else if nodes.last().tag_name == tag {
        found_among(nodes.drop_last(), tag).push(nodes.last())
    } else {
        found_among(nodes.drop_last(), tag) + found_in(nodes.last(), tag)
    }
}

/// The tag name that marks a text node.
pub open spec fn text_tag() -> Seq<char> {
    "text"@
}

/// Every text node below `n`, in pre-order.
pub open spec fn text_leaves(n: NodeView) -> Seq<NodeView>
    decreases n,
{
    text_leaves_among(n.children)
}

/// Every text node among the siblings `nodes` and below them, in pre-order.
pub open spec fn text_leaves_among(nodes: Seq<NodeView>) -> Seq<NodeView>
    decreases nodes,
{
    if nodes.len() == 0 {
        Seq::empty()
    } else if nodes.last().tag_name == text_tag() {
        text_leaves_among(nodes.drop_last()).push(nodes.last()) + text_leaves(nodes.last())
    } else {
        text_leaves_among(nodes.drop_last()) + text_leaves(nodes.last())
    }
}

/// Whether no text node below `n` has a text node below it.
pub open spec fn text_holds_no_text(n: NodeView) -> bool
    decreases n,
{
    forall|i: int|
        0 <= i < n.children.len() ==> if (#[trigger] n.children[i]).tag_name == text_tag() {
            text_leaves(n.children[i]).len() == 0
        } else {
            text_holds_no_text(n.children[i])
        }
}

/// Whether every text node at or below `n` is a leaf.
pub open spec fn text_nodes_are_leaves(n: NodeView) -> bool
    decreases n,
{
    &&& n.tag_name == text_tag() ==> n.children.len() == 0
    &&& forall|i: int|
        0 <= i < n.children.len() ==> text_nodes_are_leaves(#[trigger] n.children[i])
}

/// A tree whose text nodes are leaves has no text node below a text node.
pub proof fn lemma_leaves_hold_no_text(n: NodeView)
    requires
        text_nodes_are_leaves(n),
    ensures
        text_holds_no_text(n),
    decreases n,
{
    assert forall|i: int| 0 <= i < n.children.len() implies if (#[trigger] n.children[i]).tag_name
        == text_tag() {
        text_leaves(n.children[i]).len() == 0
    } else {
        text_holds_no_text(n.children[i])
    } by {
        let child = n.children[i];
        assert(text_nodes_are_leaves(child));
        if child.tag_name != text_tag() {
            lemma_leaves_hold_no_text(child);
        }
    }
}

/// In a tree without a text node below a text node, the search for text
/// nodes collects every text node below the root, once each, in pre-order.
pub proof fn lemma_text_search_is_preorder(n: NodeView)
    requires
        text_holds_no_text(n),
    ensures
        found_in(n, text_tag()) == text_leaves(n),
    decreases n, 1int,
{
    lemma_text_search_among(n.children);
}

/// The same, for a list of siblings.
pub proof fn lemma_text_search_among(nodes: Seq<NodeView>)
    requires
        forall|i: int|
            0 <= i < nodes.len() ==> if (#[trigger] nodes[i]).tag_name == text_tag() {
                text_leaves(nodes[i]).len() == 0
            } else {
                text_holds_no_text(nodes[i])
            },
    ensures
        found_among(nodes, text_tag()) == text_leaves_among(nodes),
    decreases nodes, 0int,
{
    if nodes.len() > 0 {
        let last = nodes.last();
        let front = nodes.drop_last();
        assert(last == nodes[nodes.len() - 1]);
        assert forall|i: int| 0 <= i < front.len() implies if (#[trigger] front[i]).tag_name
            == text_tag() {
            text_leaves(front[i]).len() == 0
        } else {
            text_holds_no_text(front[i])
        } by {
            assert(front[i] == nodes[i]);
        }
        lemma_text_search_among(front);
        if last.tag_name == text_tag() {
            assert(text_leaves(last) == Seq::<NodeView>::empty());
            assert(text_leaves_among(front).push(last) + Seq::<NodeView>::empty()
                == text_leaves_among(front).push(last));
        } else {
            lemma_text_search_is_preorder(last);
        }
    }
}

/// Two searches for text nodes in one tree collect the same nodes in the
/// same order.
pub proof fn lemma_text_search_repeatable(root: Node, first: Seq<&Node>, second: Seq<&Node>)
    requires
        ref_views(first) == found_in(root@, text_tag()),
        ref_views(second) == found_in(root@, text_tag()),
    ensures
        ref_views(first) == ref_views(second),
        first.len() == second.len(),
{
    assert(ref_views(first).len() == first.len());
    assert(ref_views(second).len() == second.len());
}

impl Node {
    /// The node with the given data and children.
    pub fn new(node_data: NodeData, children: Vec<Node>) -> (node: Self)
        ensures
            node.data == node_data,
            node.children == children,
            node@.tag_name == node_data.tag_name@,
            node@.attributes == node_data.attributes@,
            node@.children == views(children@),
    {
        let node = Node { children, data: node_data };
        proof {
            lemma_view_children(node);
        }
        node
    }

    /// The text nodes below this node, in document order.
    pub fn find_text_nodes<'a>(&'a self) -> (collected_nodes: Vec<&'a Node>)
        ensures
            ref_views(collected_nodes@) == found_in(self@, text_tag()),
    {
        let mut collected_nodes: Vec<&'a Node> = Vec::new();
        self.find_nodes("text", &mut collected_nodes);
        assert(ref_views(Seq::<&Node>::empty()) + found_in(self@, text_tag()) == found_in(
            self@,
            text_tag(),
        ));
        collected_nodes
    }

    /// Appends to `collected_nodes` the nodes below this node whose tag name
    /// is `node_type`, in document order; a node that is collected is not
    /// searched.
    pub fn find_nodes<'a>(&'a self, node_type: &str, collected_nodes: &mut Vec<&'a Node>)
        ensures
            ref_views(final(collected_nodes)@) == ref_views(old(collected_nodes)@) + found_in(
                self@,
                node_type@,
            ),
        decreases self,
    {
        let wanted = node_type.to_owned();
        let ghost kids = views(self.children@);
        proof {
            lemma_view_children(*self);
            assert(kids.take(0) == Seq::<NodeView>::empty());
            assert(ref_views(collected_nodes@) + Seq::<NodeView>::empty() == ref_views(
                collected_nodes@,
            ));
        }
        let mut i: usize = 0;
        while i < self.children.len()
            invariant
                i <= self.children@.len(),
                kids == views(self.children@),
                wanted@ == node_type@,
                ref_views(collected_nodes@) == ref_views(old(collected_nodes)@) + found_among(
                    kids.take(i as int),
                    node_type@,
                ),
            decreases self.children@.len() - i,
        {
            let child = &self.children[i];
            let ghost before = collected_nodes@;
            let ghost sofar = found_among(kids.take(i as int), node_type@);
            proof {
                lemma_view_children(*child);
                assert(kids.take(i + 1).drop_last() == kids.take(i as int));
                assert(kids.take(i + 1).last() == child@);
            }
            if child.data.tag_name == wanted {
                collected_nodes.push(child);
                proof {
                    assert(ref_views(before.push(child)) == ref_views(before).push(child@));
                    assert((ref_views(old(collected_nodes)@) + sofar).push(child@) == ref_views(
                        old(collected_nodes)@,
                    ) + sofar.push(child@));
                }
            } else {
                child.find_nodes(node_type, collected_nodes);
                proof {
                    let below = found_in(child@, node_type@);
                    assert((ref_views(old(collected_nodes)@) + sofar) + below == ref_views(
                        old(collected_nodes)@,
                    ) + (sofar + below));
                }
            }
            i = i + 1;
        }
        proof {
            assert(kids.take(self.children@.len() as int) == kids);
        }
    }

    /// The value of the attribute `name`.
    pub fn attr(&self, name: &str) -> (value: &String)
        requires
            self@.attributes.contains_key(name@),
        ensures
            value@ == self@.attributes[name@],
    {
        proof {
            lemma_view_children(*self);
        }
        self.data.attributes.get(name).unwrap()
    }
}

/// The tag name that the text `raw`, read up to a space or `>`, stands for.
pub fn tag_name_of(raw: &Vec<char>) -> (tag: String)
    ensures
        tag@ == tag_of(raw@),
{
    let mut from: usize = 0;
    while from < raw.len() && raw[from] == '<'
        invariant
            from <= raw.len(),
            forall|i: int| 0 <= i < from ==> !other_than('<')(#[trigger] raw@[i]),
        decreases raw.len() - from,
    {
        from = from + 1;
    }
    let mut to: usize = raw.len();
    while to > from && raw[to - 1] == '/'
        invariant
            from <= to <= raw.len(),
            forall|i: int| to <= i < raw.len() ==> exactly('/')(#[trigger] raw@[i]),
        decreases to - from,
    {
        to = to - 1;
    }
    proof {
        lemma_first_match_is(raw@, 0, other_than('<'), from as int);
        lemma_last_kept_is(raw@, from as int, raw.len() as int, exactly('/'), to as int);
    }
    to_string(raw, from, to)
}

/// The characters `v[from..to]` without the occurrences of `c`.
pub fn strip_char(v: &Vec<char>, from: usize, to: usize, c: char) -> (r: String)
    requires
        from <= to <= v.len(),
    ensures
        r@ == without(v@.subrange(from as int, to as int), c),
{
    let mut r = String::new();
    let mut i: usize = from;
    while i < to
        invariant
            from <= i <= to <= v.len(),
            r@ == without(v@.subrange(from as int, i as int), c),
        decreases to - i,
    {
        proof {
            let next = v@.subrange(from as int, i + 1);
            assert(next.drop_last() == v@.subrange(from as int, i as int));
            assert(next.last() == v@[i as int]);
        }
        if v[i] != c {
            r.push(v[i]);
        }
        i = i + 1;
    }
    r
}

/// The mapping that a list of `key="value"` texts stands for.
pub fn attributes_from_pairs(pairs: &Vec<String>) -> (m: TextMap)
    ensures
        m@ == pairs_map(texts(pairs@)),
{
    let mut m = TextMap::new();
    let mut i: usize = 0;
    while i < pairs.len()
        invariant
            i <= pairs.len(),
            m@ == pairs_map(texts(pairs@).take(i as int)),
        decreases pairs.len() - i,
    {
        let pair = to_chars(pairs[i].as_str());
        let mut eq: usize = 0;
        while eq < pair.len() && pair[eq] != '='
            invariant
                eq <= pair.len(),
                forall|j: int| 0 <= j < eq ==> !exactly('=')(#[trigger] pair@[j]),
            decreases pair.len() - eq,
        {
            eq = eq + 1;
        }
        proof {
            lemma_first_match_is(pair@, 0, exactly('='), eq as int);
            let next = texts(pairs@).take(i + 1);
            assert(next.drop_last() == texts(pairs@).take(i as int));
            assert(next.last() == pair@);
        }
        if eq < pair.len() {
            let key = to_string(&pair, 0, eq);
            let value = strip_char(&pair, eq + 1, pair.len(), '"');
            m.insert(key, value);
        }
        i = i + 1;
    }
    proof {
        assert(texts(pairs@).take(pairs.len() as int) == texts(pairs@));
    }
    m
}

/// The attributes that the text between a tag name and `>` declares.
pub fn attributes_in(text: &str) -> (m: TextMap)
    ensures
        m@ == attributes_of(text@),
{
    let chars = to_chars(text);
    let (from, to) = trim_bounds(&chars);
    if from == to {
        TextMap::new()
    } else {
        let inner = to_string(&chars, from, to);
        match find_all("[^\\s=]+=\"[^\"]*\"", inner.as_str()) {
            Some(pairs) => attributes_from_pairs(&pairs),
            None => TextMap::new(),
        }
    }
}

/// Whether `tag` names an element that never has content.
pub fn self_closing(tag: &String) -> (b: bool)
    ensures
        b == is_self_closing(tag@),
{
    *tag == "meta".to_owned() || *tag == "link".to_owned() || *tag == "input".to_owned() || *tag
        == "img".to_owned() || *tag == "br".to_owned()
}

/// The values of a list grow with the list.
pub proof fn lemma_views_push(v: Seq<Node>, n: Node)
    ensures
        views(v.push(n)) == views(v).push(n@),
{
    assert(views(v.push(n)) =~= views(v).push(n@));
}

/// The tree builder: the characters of the source and a cursor into them.
pub struct HTMLParser {
    chars: Vec<char>,
    pos: usize,
}

impl HTMLParser {
    #[verifier::type_invariant]
    spec fn cursor_in_range(self) -> bool {
        self.pos <= self.chars@.len()
    }

    /// The characters that the parser reads.
    pub closed spec fn source(&self) -> Seq<char> {
        self.chars@
    }

    /// The position of the next character to read.
    pub closed spec fn cursor(&self) -> int {
        self.pos as int
    }

    /// A parser at the start of `source` without its leading and trailing
    /// whitespace.
    pub fn new(source: &str) -> (p: Self)
        ensures
            p.source() == trimmed(source@),
            p.cursor() == 0,
    {
        HTMLParser { chars: trim_chars(source), pos: 0 }
    }

    /// The next character, which stays unread.
    pub fn peek(&self) -> (r: Option<char>)
        ensures
            0 <= self.cursor() <= self.source().len(),
            r == if self.cursor() < self.source().len() {
                Some(self.source()[self.cursor()])
            } else {
                None
            },
    {
        proof {
            use_type_invariant(self);
        }
        if self.pos < self.chars.len() {
            Some(self.chars[self.pos])
        } else {
            None
        }
    }

    /// Reads the next character.
    pub fn next(&mut self) -> (r: Option<char>)
        ensures
            final(self).source() == old(self).source(),
            0 <= old(self).cursor() <= old(self).source().len(),
            r == if old(self).cursor() < old(self).source().len() {
                Some(old(self).source()[old(self).cursor()])
            } else {
                None
            },
            final(self).cursor() == if r is Some {
                old(self).cursor() + 1
            } else {
                old(self).cursor()
            },
    {
        proof {
            use_type_invariant(&*self);
        }
        if self.pos < self.chars.len() {
            let c = self.chars[self.pos];
            self.pos = self.pos + 1;
            Some(c)
        } else {
            None
        }
    }

    /// Reads up to the first character that occurs in `stops`, which stays
    /// unread, or up to the end, and returns what was read.
    pub fn read_until(&mut self, stops: Vec<char>) -> (collected: String)
        ensures
            final(self).source() == old(self).source(),
            0 <= old(self).cursor() <= final(self).cursor() <= old(self).source().len(),
            final(self).cursor() == first_match(
                old(self).source(),
                old(self).cursor(),
                one_of(stops@),
            ),
            collected@ == old(self).source().subrange(old(self).cursor(), final(self).cursor()),
    {
        proof {
            use_type_invariant(&*self);
        }
        let start = self.pos;
        while self.pos < self.chars.len() && !contains_char(&stops, self.chars[self.pos])
            invariant
                self.chars@ == old(self).chars@,
                start <= self.pos <= self.chars@.len(),
                forall|i: int| start <= i < self.pos ==> !one_of(stops@)(#[trigger] self.chars@[i]),
            decreases self.chars@.len() - self.pos,
        {
            self.pos = self.pos + 1;
        }
        proof {
            lemma_first_match_is(self.chars@, start as int, one_of(stops@), self.pos as int);
        }
        to_string(&self.chars, start, self.pos)
    }

    /// Reads through the first `c`, or to the end where there is none.
    pub fn consume_until(&mut self, c: &char)
        ensures
            final(self).source() == old(self).source(),
            0 <= old(self).cursor() <= final(self).cursor() <= old(self).source().len(),
            final(self).cursor() == after(old(self).source(), old(self).cursor(), *c),
    {
        proof {
            use_type_invariant(&*self);
        }
        let ghost start = self.pos;
        while self.pos < self.chars.len() && self.chars[self.pos] != *c
            invariant
                self.chars@ == old(self).chars@,
                start <= self.pos <= self.chars@.len(),
                forall|i: int| start <= i < self.pos ==> !exactly(*c)(#[trigger] self.chars@[i]),
            decreases self.chars@.len() - self.pos,
        {
            self.pos = self.pos + 1;
        }
        proof {
            lemma_first_match_is(self.chars@, start as int, exactly(*c), self.pos as int);
        }
        if self.pos < self.chars.len() {
            self.pos = self.pos + 1;
        }
    }

    /// Reads over spaces, tabs and line feeds.
    pub fn consume_whitespaces(&mut self)
        ensures
            final(self).source() == old(self).source(),
            0 <= old(self).cursor() <= final(self).cursor() <= old(self).source().len(),
            final(self).cursor() == first_match(
                old(self).source(),
                old(self).cursor(),
                non_blank(),
            ),
    {
        proof {
            use_type_invariant(&*self);
        }
        let ghost start = self.pos;
        while self.pos < self.chars.len() && blank(self.chars[self.pos])
            invariant
                self.chars@ == old(self).chars@,
                start <= self.pos <= self.chars@.len(),
                forall|i: int| start <= i < self.pos ==> !non_blank()(#[trigger] self.chars@[i]),
            decreases self.chars@.len() - self.pos,
        {
            self.pos = self.pos + 1;
        }
        proof {
            lemma_first_match_is(self.chars@, start as int, non_blank(), self.pos as int);
        }
    }

    /// Reads a tag name: up to a space, which is consumed, or `>`, which is
    /// not, or the end.
    fn parse_tag_name(&mut self) -> (tag: String)
        ensures
            final(self).source() == old(self).source(),
            0 <= old(self).cursor() <= final(self).cursor() <= old(self).source().len(),
            final(self).cursor() == name_next(old(self).source(), old(self).cursor()),
            tag@ == tag_of(
                old(self).source().subrange(
                    old(self).cursor(),
                    name_end(old(self).source(), old(self).cursor()),
                ),
            ),
    {
        proof {
            use_type_invariant(&*self);
        }
        let mut stops: Vec<char> = Vec::new();
        stops.push(' ');
        stops.push('>');
        assert(stops@ == seq![' ', '>']);
        let name = self.read_until(stops);
        let raw = to_chars(name.as_str());
        if self.pos < self.chars.len() && self.chars[self.pos] == ' ' {
            self.pos = self.pos + 1;
        }
        tag_name_of(&raw)
    }

    /// Reads the attribute section through its `>`.
    fn parse_attributes(&mut self) -> (attributes: TextMap)
        ensures
            final(self).source() == old(self).source(),
            0 <= old(self).cursor() <= final(self).cursor() <= old(self).source().len(),
            final(self).cursor() == after(old(self).source(), old(self).cursor(), '>'),
            attributes@ == attributes_of(
                old(self).source().subrange(
                    old(self).cursor(),
                    first_match(old(self).source(), old(self).cursor(), exactly('>')),
                ),
            ),
    {
        proof {
            use_type_invariant(&*self);
            lemma_single_stop(self.chars@, self.pos as int, '>');
        }
        let mut stops: Vec<char> = Vec::new();
        stops.push('>');
        assert(stops@ == seq!['>']);
        let text = self.read_until(stops);
        if self.pos < self.chars.len() {
            self.pos = self.pos + 1;
        }
        attributes_in(text.as_str())
    }

    /// Reads the children of an element up to its closing tag.
    fn parse_content(&mut self) -> (children: Vec<Node>)
        ensures
            final(self).source() == old(self).source(),
            0 <= old(self).cursor() <= final(self).cursor() <= old(self).source().len(),
            views(children@) == content_at(old(self).source(), old(self).cursor()).0,
            final(self).cursor() == content_at(old(self).source(), old(self).cursor()).1,
        decreases old(self).source().len() - old(self).cursor(), 0int,
    {
        proof {
            use_type_invariant(&*self);
        }
        let ghost src = self.chars@;
        let ghost start = self.pos as int;
        let mut children: Vec<Node> = Vec::new();
        let mut done = false;
        assert(views(children@) + content_at(src, start).0 == content_at(src, start).0);
        while !done
            invariant
                self.chars@ == src,
                src == old(self).chars@,
                start == old(self).pos,
                start <= self.pos <= src.len(),
                !done ==> content_at(src, start).0 == views(children@) + content_at(
                    src,
                    self.pos as int,
                ).0,
                !done ==> content_at(src, start).1 == content_at(src, self.pos as int).1,
                done ==> content_at(src, start) == (views(children@), self.pos as int),
            decreases src.len() - self.pos + (if done { 0int } else { 1int }),
        {
            let ghost at = self.pos as int;
            let ghost before = children@;
            if self.pos >= self.chars.len() {
                assert(views(before) + Seq::<NodeView>::empty() == views(before));
                done = true;
            } else if self.chars[self.pos] != '<' {
                proof {
                    lemma_single_stop(src, at, '<');
                    lemma_first_match(src, at + 1, exactly('<'));
                }
                let mut stops: Vec<char> = Vec::new();
                stops.push('<');
                assert(stops@ == seq!['<']);
                let content = self.read_until(stops);
                let mut attributes = TextMap::new();
                attributes.insert("content".to_owned(), content);
                let node = Node {
                    children: Vec::new(),
                    data: NodeData { tag_name: "text".to_owned(), attributes },
                };
                proof {
                    lemma_view_children(node);
                    assert(node@.children == Seq::<NodeView>::empty());
                    assert(node@ == text_node(content@));
                    lemma_views_push(before, node);
                    let rest = content_at(src, self.pos as int).0;
                    assert(views(before) + (seq![node@] + rest) == views(before).push(node@) + rest);
                }
                children.push(node);
            } else {
                self.pos = self.pos + 1;
                if self.pos >= self.chars.len() {
                    assert(views(before) + Seq::<NodeView>::empty() == views(before));
                    done = true;
                } else {
                    let c = self.chars[self.pos];
                    if c == '/' {
                        self.consume_until(&'>');
                        assert(views(before) + Seq::<NodeView>::empty() == views(before));
                        done = true;
                    } else if c == '!' {
                        self.consume_until(&'>');
                        self.consume_whitespaces();
                    } else {
                        let child = self.parse();
                        match child {
                            Some(node) => {
                                proof {
                                    lemma_views_push(before, node);
                                    let rest = content_at(src, self.pos as int).0;
                                    assert(views(before) + (seq![node@] + rest) == views(
                                        before,
                                    ).push(node@) + rest);
                                }
                                children.push(node);
                            },
                            None => {},
                        }
                    }
                }
            }
        }
        children
    }

    /// Reads one element with its content and returns its node, or no node
    /// where the tag name starts with `/`.
    pub fn parse(&mut self) -> (r: Option<Node>)
        ensures
            final(self).source() == old(self).source(),
            0 <= old(self).cursor() <= final(self).cursor() <= old(self).source().len(),
            final(self).cursor() == node_at(old(self).source(), old(self).cursor()).1,
            match r {
                Some(node) => node_at(old(self).source(), old(self).cursor()).0 == Some(node@),
                None => node_at(old(self).source(), old(self).cursor()).0 is None,
            },
        decreases old(self).source().len() - old(self).cursor(), 1int,
    {
        proof {
            use_type_invariant(&*self);
        }
        let tag_name = self.parse_tag_name();
        let tag = to_chars(tag_name.as_str());
        if tag.len() > 0 && tag[0] == '/' {
            return None;
        }
        let attributes = self.parse_attributes();
        self.consume_whitespaces();
        if self_closing(&tag_name) {
            let node = Node { children: Vec::new(), data: NodeData { tag_name, attributes } };
            proof {
                lemma_view_children(node);
                assert(node@.children == Seq::<NodeView>::empty());
            }
            return Some(node);
        }
        let children = self.parse_content();
        self.consume_whitespaces();
        let node = Node { children, data: NodeData { tag_name, attributes } };
        proof {
            lemma_view_children(node);
        }
        Some(node)
    }
}

} // verus!