//! A flat model of parsed markup. The outside HTML parser hands the library a
//! stream of open/close/text events; the library turns it into a list of nodes
//! annotated with their nesting depth, on which every structural query of the
//! extractor is defined and verified.

use vstd::prelude::*;

use crate::strutil::{chars_vec, has_word, has_word_exec, push_str_chars, str_eq};

verus! {

/// One event of a document traversal, in document order.
pub enum DomEvent {
    /// An element opens, with its tag name and its attributes in source order.
    Open { tag: String, attrs: Vec<(String, String)> },
    /// The most recent open element closes.
    Close,
    /// A text node.
    Text { text: String },
    /// A node of no interest (comment, doctype, processing instruction).
    Blank,
}

/// The mathematical value of one traversal event.
pub enum EventView {
    Open { tag: Seq<char>, attrs: Seq<(Seq<char>, Seq<char>)> },
    Close,
    Text { text: Seq<char> },
    Blank,
}

impl View for DomEvent {
    type V = EventView;

    open spec fn view(&self) -> EventView {
        match self {
            DomEvent::Open { tag, attrs } => EventView::Open {
                tag: tag@,
                attrs: attrs.deep_view(),
            },
            DomEvent::Close => EventView::Close,
            DomEvent::Text { text } => EventView::Text { text: text@ },
            DomEvent::Blank => EventView::Blank,
        }
    }
}

impl DeepView for DomEvent {
    type V = EventView;

    open spec fn deep_view(&self) -> EventView {
        self.view()
    }
}

/// What one node of the flat document holds.
pub enum NodeData {
    /// An element with its tag name and attributes.
    Elem { tag: String, attrs: Vec<(String, String)> },
    /// A text node.
    Text { text: String },
}

/// One node of the flat document: its payload and its nesting depth.
pub struct FlatNode {
    pub depth: usize,
    pub data: NodeData,
}

/// The mathematical value of one flat node.
pub enum NodeView {
    Elem { depth: int, tag: Seq<char>, attrs: Seq<(Seq<char>, Seq<char>)> },
    Text { depth: int, text: Seq<char> },
}

impl View for FlatNode {
    type V = NodeView;

    open spec fn view(&self) -> NodeView {
        match &self.data {
            NodeData::Elem { tag, attrs } => NodeView::Elem {
                depth: self.depth as int,
                tag: tag@,
                attrs: attrs.deep_view(),
            },
            NodeData::Text { text } => NodeView::Text { depth: self.depth as int, text: text@ },
        }
    }
}

impl DeepView for FlatNode {
    type V = NodeView;

    open spec fn deep_view(&self) -> NodeView {
        self.view()
    }
}

/// Whether a node is an element.
pub open spec fn is_elem(n: NodeView) -> bool {
    n is Elem
}

/// Whether a node is a text node.
pub open spec fn is_text(n: NodeView) -> bool {
    n is Text
}

/// The nesting depth of a node.
pub open spec fn depth_of(n: NodeView) -> int {
    match n {
        NodeView::Elem { depth, .. } => depth,
        NodeView::Text { depth, .. } => depth,
    }
}

/// The tag name of an element node, empty otherwise.
pub open spec fn tag_of(n: NodeView) -> Seq<char> {
    match n {
        NodeView::Elem { tag, .. } => tag,
        _ => Seq::empty(),
    }
}

/// The attributes of an element node, none otherwise.
pub open spec fn attrs_of(n: NodeView) -> Seq<(Seq<char>, Seq<char>)> {
    match n {
        NodeView::Elem { attrs, .. } => attrs,
        _ => Seq::empty(),
    }
}

/// The text of a text node, empty otherwise.
pub open spec fn text_of(n: NodeView) -> Seq<char> {
    match n {
        NodeView::Text { text, .. } => text,
        _ => Seq::empty(),
    }
}

/// The first value in `attrs`, from position `i` on, under the name `name`.
pub open spec fn attr_from(
    attrs: Seq<(Seq<char>, Seq<char>)>,
    name: Seq<char>,
    i: int,
) -> Option<Seq<char>>
    decreases attrs.len() + 1 - i,
    when 0 <= i
{
    if i >= attrs.len() {
        None
    } else if attrs[i].0 == name {
        Some(attrs[i].1)
    } else {
        attr_from(attrs, name, i + 1)
    }
}

/// The value of the attribute `name` on the node `n`, if any.
pub open spec fn attr_spec(n: NodeView, name: Seq<char>) -> Option<Seq<char>> {
    attr_from(attrs_of(n), name, 0)
}

/// Looks the attribute `name` up on the node `n`.
pub fn attr_lookup(n: &FlatNode, name: &str) -> (r: Option<String>)
    ensures
        match r {
            Some(v) => attr_spec(n@, name@) == Some(v@),
            None => attr_spec(n@, name@) is None,
        },
{
    match &n.data {
        NodeData::Text { .. } => None,
        NodeData::Elem { attrs, .. } => {
            let m: usize = attrs.len();
            let mut i: usize = 0;
            while i < m
                invariant
                    0 <= i <= m,
                    m == attrs@.len(),
                    attrs_of(n@) == attrs.deep_view(),
                    attr_spec(n@, name@) == attr_from(attrs.deep_view(), name@, i as int),
                decreases m - i,
            {
                proof {
                    let ghost pair = attrs@[i as int];
                    assert(attrs.deep_view()[i as int] == (pair.0@, pair.1@));
                }
                if str_eq(attrs[i].0.as_str(), name) {
                    return Some(attrs[i].1.clone());
                }
                i = i + 1;
            }
            None
        },
    }
}

/// Whether the node `n` is an element whose `class` attribute carries the word `cls`.
pub open spec fn has_class(n: NodeView, cls: Seq<char>) -> bool {
    is_elem(n) && match attr_spec(n, "class"@) {
        Some(v) => has_word(v, cls),
        None => false,
    }
}

/// Checks `has_class` on a node.
pub fn has_class_exec(n: &FlatNode, cls: &Vec<char>) -> (r: bool)
    ensures
        r == has_class(n@, cls@),
{
    match &n.data {
        NodeData::Text { .. } => false,
        NodeData::Elem { .. } => {
            match attr_lookup(n, "class") {
                Some(v) => {
                    let vc = chars_vec(v.as_str());
                    has_word_exec(&vc, cls)
                },
                None => false,
            }
        },
    }
}

/// The nodes described by an event stream, reading from position `i` at
/// nesting depth `d`: open events push one level, close events pop one,
/// text nodes sit at the current level, blank events leave no node.
pub open spec fn flatten_from(events: Seq<EventView>, i: int, d: int) -> Seq<NodeView>
    decreases events.len() + 1 - i,
    when 0 <= i
{
    if i >= events.len() {
        Seq::empty()
    } else {
        match events[i] {
            EventView::Open { tag, attrs } => seq![NodeView::Elem { depth: d, tag, attrs }]
                + flatten_from(events, i + 1, d + 1),
            EventView::Close => flatten_from(events, i + 1, if d > 0 { d - 1 } else { 0 }),
            EventView::Text { text } => seq![NodeView::Text { depth: d, text }] + flatten_from(
                events,
                i + 1,
                d,
            ),
            EventView::Blank => flatten_from(events, i + 1, d),
        }
    }
}

/// The flat document of an event stream.
pub open spec fn flatten_spec(events: Seq<EventView>) -> Seq<NodeView> {
    flatten_from(events, 0, 0)
}

/// Clones an attribute list.
fn clone_attrs(attrs: &Vec<(String, String)>) -> (r: Vec<(String, String)>)
    ensures
        r.deep_view() == attrs.deep_view(),
{
    let mut r: Vec<(String, String)> = Vec::new();
    let mut i: usize = 0;
    while i < attrs.len()
        invariant
            i <= attrs@.len(),
            r@.len() == i,
            forall|k: int| 0 <= k < i ==> r.deep_view()[k] == attrs.deep_view()[k],
        decreases attrs@.len() - i,
    {
        let name = attrs[i].0.clone();
        let value = attrs[i].1.clone();
        let ghost prev = r.deep_view();
        r.push((name, value));
        proof {
            assert(forall|k: int| 0 <= k < prev.len() ==> #[trigger] r.deep_view()[k] == prev[k]);
            assert(r.deep_view()[i as int] == (name@, value@));
            assert(attrs.deep_view()[i as int] == (attrs@[i as int].0@, attrs@[i as int].1@));
        }
        i = i + 1;
    }
    proof {
        assert(r.deep_view() =~= attrs.deep_view());
    }
    r
}

/// Builds the flat document of an event stream.
pub fn flatten(events: &Vec<DomEvent>) -> (r: Vec<FlatNode>)
    ensures
        r.deep_view() == flatten_spec(events.deep_view()),
{
    let n: usize = events.len();
    let mut r: Vec<FlatNode> = Vec::new();
    let mut d: usize = 0;
    let mut i: usize = 0;
    while i < n
        invariant
            i <= n,
            d <= i,
            n == events@.len(),
            flatten_spec(events.deep_view()) == r.deep_view() + flatten_from(
                events.deep_view(),
                i as int,
                d as int,
            ),
        decreases n - i,
    {
        let ghost prev = r.deep_view();
        proof {
            assert(events.deep_view()[i as int] == events@[i as int]@);
        }
        match &events[i] {
            DomEvent::Open { tag, attrs } => {
                let node = FlatNode {
                    depth: d,
                    data: NodeData::Elem { tag: tag.clone(), attrs: clone_attrs(attrs) },
                };
                r.push(node);
                proof {
                    assert(forall|k: int|
                        0 <= k < prev.len() ==> #[trigger] r.deep_view()[k] == prev[k]);
                    assert(r.deep_view()[prev.len() as int] == node@);
                    assert(flatten_from(events.deep_view(), i as int, d as int) == seq![node@]
                        + flatten_from(events.deep_view(), i + 1, d + 1));
                    assert(r.deep_view() + flatten_from(events.deep_view(), i + 1, d + 1) =~= prev
                        + flatten_from(events.deep_view(), i as int, d as int));
                }
                d = d + 1;
            },
            DomEvent::Close => {
                if d > 0 {
                    d = d - 1;
                }
            },
            DomEvent::Text { text } => {
                let node = FlatNode { depth: d, data: NodeData::Text { text: text.clone() } };
                r.push(node);
                proof {
                    assert(forall|k: int|
                        0 <= k < prev.len() ==> #[trigger] r.deep_view()[k] == prev[k]);
                    assert(r.deep_view()[prev.len() as int] == node@);
                    assert(flatten_from(events.deep_view(), i as int, d as int) == seq![node@]
                        + flatten_from(events.deep_view(), i + 1, d as int));
                    assert(r.deep_view() + flatten_from(events.deep_view(), i + 1, d as int)
                        =~= prev + flatten_from(events.deep_view(), i as int, d as int));
                }
            },
            DomEvent::Blank => {},
        }
        i = i + 1;
    }
    proof {
        assert(r.deep_view() =~= flatten_spec(events.deep_view()));
    }
    r
}

/// One view index of a node vector equals the view of the indexed node.
pub proof fn deep_index(doc: &Vec<FlatNode>, i: int)
    requires
        0 <= i < doc@.len(),
    ensures
        doc.deep_view().len() == doc@.len(),
        doc.deep_view()[i] == doc@[i]@,
{
}

/// Whether a node is an element, in executable code.
pub fn node_is_elem(n: &FlatNode) -> (b: bool)
    ensures
        b == is_elem(n@),
{
    match &n.data {
        NodeData::Elem { .. } => true,
        NodeData::Text { .. } => false,
    }
}

/// Whether a node is an element with the tag `t`.
pub fn tag_is(n: &FlatNode, t: &str) -> (b: bool)
    ensures
        b == (is_elem(n@) && tag_of(n@) == t@),
{
    match &n.data {
        NodeData::Elem { tag, .. } => str_eq(tag.as_str(), t),
        NodeData::Text { .. } => false,
    }
}

/// The first position at or after `j` whose node sits at depth `d` or above;
/// the length of the document when there is none.
pub open spec fn subtree_end_from(doc: Seq<NodeView>, d: int, j: int) -> int
    decreases doc.len() + 1 - j,
    when 0 <= j
{
    if j >= doc.len() {
        doc.len() as int
    } else if depth_of(doc[j]) <= d {
        j
    } else {
        subtree_end_from(doc, d, j + 1)
    }
}

/// One past the last node of the subtree of the node at `i`: its descendants
/// are exactly the nodes strictly between `i` and this position.
pub open spec fn subtree_end(doc: Seq<NodeView>, i: int) -> int {
    subtree_end_from(doc, depth_of(doc[i]), i + 1)
}

/// Bounds of `subtree_end_from`, and the depths inside the scanned range.
pub proof fn lemma_subtree_end_from(doc: Seq<NodeView>, d: int, j: int)
    requires
        0 <= j <= doc.len(),
    ensures
        j <= subtree_end_from(doc, d, j) <= doc.len(),
        forall|k: int| j <= k < subtree_end_from(doc, d, j) ==> depth_of(doc[k]) > d,
        subtree_end_from(doc, d, j) < doc.len() ==> depth_of(
            doc[subtree_end_from(doc, d, j)],
        ) <= d,
    decreases doc.len() + 1 - j,
{
    if j >= doc.len() {
    } else if depth_of(doc[j]) <= d {
    } else {
        lemma_subtree_end_from(doc, d, j + 1);
    }
}

/// Bounds of `subtree_end`.
pub proof fn lemma_subtree_end(doc: Seq<NodeView>, i: int)
    requires
        0 <= i < doc.len(),
    ensures
        i + 1 <= subtree_end(doc, i) <= doc.len(),
        forall|k: int| i < k < subtree_end(doc, i) ==> depth_of(doc[k]) > depth_of(doc[i]),
{
    lemma_subtree_end_from(doc, depth_of(doc[i]), i + 1);
}

/// Computes `subtree_end`.
pub fn subtree_end_exec(doc: &Vec<FlatNode>, i: usize) -> (r: usize)
    requires
        i < doc@.len(),
    ensures
        r as int == subtree_end(doc.deep_view(), i as int),
        i < r <= doc@.len(),
{
    let ghost dv = doc.deep_view();
    let n: usize = doc.len();
    let d: usize = doc[i].depth;
    proof {
        deep_index(doc, i as int);
        assert(depth_of(dv[i as int]) == d as int);
        lemma_subtree_end_from(dv, d as int, i + 1);
    }
    let mut j: usize = i + 1;
    while j < n
        invariant
            i + 1 <= j <= n,
            n == doc@.len(),
            dv == doc.deep_view(),
            d as int == depth_of(dv[i as int]),
            subtree_end(dv, i as int) == subtree_end_from(dv, d as int, j as int),
        ensures
            i + 1 <= j <= n,
            subtree_end(dv, i as int) == subtree_end_from(dv, d as int, j as int),
            j < n ==> depth_of(dv[j as int]) <= d as int,
        decreases n - j,
    {
        proof {
            deep_index(doc, j as int);
        }
        if doc[j].depth <= d {
            break;
        }
        j = j + 1;
    }
    j
}

/// The element at depth `d` nearest before position `j` (inclusive), scanning
/// down, stopping where the depth falls below `d`.
pub open spec fn prev_elem_sib_from(doc: Seq<NodeView>, d: int, j: int) -> Option<int>
    decreases j + 1,
    when j < doc.len()
{
    if j < 0 {
        None
    } else if depth_of(doc[j]) < d {
        None
    } else if depth_of(doc[j]) == d && is_elem(doc[j]) {
        Some(j)
    } else {
        prev_elem_sib_from(doc, d, j - 1)
    }
}

/// The element sibling before the node at `i`, text siblings skipped.
pub open spec fn prev_elem_sib(doc: Seq<NodeView>, i: int) -> Option<int> {
    prev_elem_sib_from(doc, depth_of(doc[i]), i - 1)
}

/// A found preceding sibling lies before the scanned position.
pub proof fn lemma_prev_elem_sib_from(doc: Seq<NodeView>, d: int, j: int)
    requires
        j < doc.len(),
    ensures
        match prev_elem_sib_from(doc, d, j) {
            Some(k) => 0 <= k <= j && depth_of(doc[k]) == d && is_elem(doc[k]),
            None => true,
        },
    decreases j + 1,
{
    if j < 0 {
    } else if depth_of(doc[j]) < d {
    } else if depth_of(doc[j]) == d && is_elem(doc[j]) {
    } else {
        lemma_prev_elem_sib_from(doc, d, j - 1);
    }
}

/// Computes `prev_elem_sib`.
pub fn prev_elem_sib_exec(doc: &Vec<FlatNode>, i: usize) -> (r: Option<usize>)
    requires
        i < doc@.len(),
    ensures
        match r {
            Some(k) => prev_elem_sib(doc.deep_view(), i as int) == Some(k as int) && k < i,
            None => prev_elem_sib(doc.deep_view(), i as int) is None,
        },
{
    let ghost dv = doc.deep_view();
    let d: usize = doc[i].depth;
    proof {
        deep_index(doc, i as int);
    }
    let mut j: usize = i;
    while j > 0
        invariant
            0 <= j <= i < doc@.len(),
            dv == doc.deep_view(),
            d as int == depth_of(dv[i as int]),
            prev_elem_sib(dv, i as int) == prev_elem_sib_from(dv, d as int, j - 1),
        decreases j,
    {
        let k = j - 1;
        proof {
            deep_index(doc, k as int);
        }
        if doc[k].depth < d {
            return None;
        }
        let here_elem = node_is_elem(&doc[k]);
        if doc[k].depth == d && here_elem {
            return Some(k);
        }
        j = k;
    }
    None
}

/// The nearest position before `j` (inclusive) whose node sits at a depth
/// below `d`: the enclosing node of anything at depth `d` after it.
pub open spec fn parent_from(doc: Seq<NodeView>, d: int, j: int) -> Option<int>
    decreases j + 1,
    when j < doc.len()
{
    if j < 0 {
        None
    } else if depth_of(doc[j]) < d {
        Some(j)
    } else {
        parent_from(doc, d, j - 1)
    }
}

/// The enclosing node of the node at `i`.
pub open spec fn parent_of(doc: Seq<NodeView>, i: int) -> Option<int> {
    parent_from(doc, depth_of(doc[i]), i - 1)
}

/// A found parent lies before the child.
pub proof fn lemma_parent_from(doc: Seq<NodeView>, d: int, j: int)
    requires
        j < doc.len(),
    ensures
        match parent_from(doc, d, j) {
            Some(k) => 0 <= k <= j && depth_of(doc[k]) < d,
            None => true,
        },
    decreases j + 1,
{
    if j < 0 {
    } else if depth_of(doc[j]) < d {
    } else {
        lemma_parent_from(doc, d, j - 1);
    }
}

/// Computes `parent_of`.
pub fn parent_exec(doc: &Vec<FlatNode>, i: usize) -> (r: Option<usize>)
    requires
        i < doc@.len(),
    ensures
        match r {
            Some(k) => parent_of(doc.deep_view(), i as int) == Some(k as int) && k < i,
            None => parent_of(doc.deep_view(), i as int) is None,
        },
{
    let ghost dv = doc.deep_view();
    let d: usize = doc[i].depth;
    proof {
        deep_index(doc, i as int);
    }
    let mut j: usize = i;
    while j > 0
        invariant
            0 <= j <= i < doc@.len(),
            dv == doc.deep_view(),
            d as int == depth_of(dv[i as int]),
            parent_of(dv, i as int) == parent_from(dv, d as int, j - 1),
        decreases j,
    {
        let k = j - 1;
        proof {
            deep_index(doc, k as int);
        }
        if doc[k].depth < d {
            return Some(k);
        }
        j = k;
    }
    None
}

/// The text of the nodes in `[lo, j)`, concatenated in document order.
pub open spec fn text_upto(doc: Seq<NodeView>, lo: int, j: int) -> Seq<char>
    decreases j - lo,
{
    if j <= lo {
        Seq::empty()
    } else {
        text_upto(doc, lo, j - 1) + text_of(doc[j - 1])
    }
}

/// The concatenated descendant text of the element at `i`, as `text()` of a
/// node yields it.
pub open spec fn subtree_text(doc: Seq<NodeView>, i: int) -> Seq<char> {
    text_upto(doc, i + 1, subtree_end(doc, i))
}

/// Collects the text of the nodes in `[lo, hi)`.
pub fn range_text(doc: &Vec<FlatNode>, lo: usize, hi: usize) -> (r: Vec<char>)
    requires
        lo <= hi <= doc@.len(),
    ensures
        r@ == text_upto(doc.deep_view(), lo as int, hi as int),
{
    let ghost dv = doc.deep_view();
    let mut r: Vec<char> = Vec::new();
    let mut j: usize = lo;
    while j < hi
        invariant
            lo <= j <= hi <= doc@.len(),
            dv == doc.deep_view(),
            r@ == text_upto(dv, lo as int, j as int),
        decreases hi - j,
    {
        proof {
            deep_index(doc, j as int);
        }
        match &doc[j].data {
            NodeData::Text { text } => {
                push_str_chars(&mut r, text.as_str());
            },
            NodeData::Elem { .. } => {
                proof {
                    assert(r@ + text_of(dv[j as int]) =~= r@);
                }
            },
        }
        j = j + 1;
    }
    r
}

/// The text of the subtree of the element at `i`.
pub fn subtree_text_exec(doc: &Vec<FlatNode>, i: usize) -> (r: Vec<char>)
    requires
        i < doc@.len(),
    ensures
        r@ == subtree_text(doc.deep_view(), i as int),
{
    let se = subtree_end_exec(doc, i);
    range_text(doc, i + 1, se)
}

/// The escape of one character of serialized text.
pub open spec fn esc_char(c: char) -> Seq<char> {
    if c == '&' {
        seq!['&', 'a', 'm', 'p', ';']
    } else if c == '<' {
        seq!['&', 'l', 't', ';']
    } else if c == '>' {
        seq!['&', 'g', 't', ';']
    } else {
        seq![c]
    }
}

/// The escape of one character of a serialized attribute value.
pub open spec fn esc_attr_char(c: char) -> Seq<char> {
    if c == '&' {
        seq!['&', 'a', 'm', 'p', ';']
    } else if c == '"' {
        seq!['&', 'q', 'u', 'o', 't', ';']
    } else {
        seq![c]
    }
}

/// The first `j` characters of `s`, escaped as text.
pub open spec fn esc_text(s: Seq<char>, j: int) -> Seq<char>
    decreases j,
{
    if j <= 0 {
        Seq::empty()
    } else {
        esc_text(s, j - 1) + esc_char(s[j - 1])
    }
}

/// The first `j` characters of `s`, escaped as an attribute value.
pub open spec fn esc_attr(s: Seq<char>, j: int) -> Seq<char>
    decreases j,
{
    if j <= 0 {
        Seq::empty()
    } else {
        esc_attr(s, j - 1) + esc_attr_char(s[j - 1])
    }
}

/// The serialized form of the first `j` attributes: a space, the name, `="`,
/// the escaped value, `"`.
pub open spec fn attrs_markup(attrs: Seq<(Seq<char>, Seq<char>)>, j: int) -> Seq<char>
    decreases j,
{
    if j <= 0 {
        Seq::empty()
    } else {
        attrs_markup(attrs, j - 1) + seq![' '] + attrs[j - 1].0 + seq!['=', '"'] + esc_attr(
            attrs[j - 1].1,
            attrs[j - 1].1.len() as int,
        ) + seq!['"']
    }
}

/// The opening markup of an element node.
pub open spec fn open_markup(n: NodeView) -> Seq<char> {
    seq!['<'] + tag_of(n) + attrs_markup(attrs_of(n), attrs_of(n).len() as int) + seq!['>']
}

/// The closing markup of an element node.
pub open spec fn close_markup(n: NodeView) -> Seq<char> {
    seq!['<', '/'] + tag_of(n) + seq!['>']
}

/// The serialized markup of the nodes in `[j, hi)`: text is escaped, elements
/// are written with their attributes around their serialized subtrees.
pub open spec fn ser_range(doc: Seq<NodeView>, j: int, hi: int) -> Seq<char>
    decreases hi - j,
    when 0 <= j && hi <= doc.len()
    via ser_range_dec
{
    if j >= hi {
        Seq::empty()
    } else if is_text(doc[j]) {
        esc_text(text_of(doc[j]), text_of(doc[j]).len() as int) + ser_range(doc, j + 1, hi)
    } else {
        let e = if subtree_end(doc, j) <= hi {
            subtree_end(doc, j)
        } else {
            hi
        };
        open_markup(doc[j]) + ser_range(doc, j + 1, e) + close_markup(doc[j]) + ser_range(
            doc,
            e,
            hi,
        )
    }
}

#[via_fn]
proof fn ser_range_dec(doc: Seq<NodeView>, j: int, hi: int) {
    if 0 <= j && hi <= doc.len() && j < hi && !is_text(doc[j]) {
        lemma_subtree_end(doc, j);
    }
}

/// Appends the text-escaped characters of `s` to `out`.
fn push_esc_text(out: &mut Vec<char>, s: &str)
    ensures
        final(out)@ == old(out)@ + esc_text(s@, s@.len() as int),
{
    let n: usize = s.unicode_len();
    let mut i: usize = 0;
    while i < n
        invariant
            i <= n,
            n == s@.len(),
            out@ == old(out)@ + esc_text(s@, i as int),
        decreases n - i,
    {
        let c = s.get_char(i);
        if c == '&' {
            out.push('&');
            out.push('a');
            out.push('m');
            out.push('p');
            out.push(';');
        } else if c == '<' {
            out.push('&');
            out.push('l');
            out.push('t');
            out.push(';');
        } else if c == '>' {
            out.push('&');
            out.push('g');
            out.push('t');
            out.push(';');
        } else {
            out.push(c);
        }
        i = i + 1;
        assert(out@ =~= old(out)@ + esc_text(s@, i as int));
    }
}

/// Appends the attribute-escaped characters of `s` to `out`.
fn push_esc_attr(out: &mut Vec<char>, s: &str)
    ensures
        final(out)@ == old(out)@ + esc_attr(s@, s@.len() as int),
{
    let n: usize = s.unicode_len();
    let mut i: usize = 0;
    while i < n
        invariant
            i <= n,
            n == s@.len(),
            out@ == old(out)@ + esc_attr(s@, i as int),
        decreases n - i,
    {
        let c = s.get_char(i);
        if c == '&' {
            out.push('&');
            out.push('a');
            out.push('m');
            out.push('p');
            out.push(';');
        } else if c == '"' {
            out.push('&');
            out.push('q');
            out.push('u');
            out.push('o');
            out.push('t');
            out.push(';');
        } else {
            out.push(c);
        }
        i = i + 1;
        assert(out@ =~= old(out)@ + esc_attr(s@, i as int));
    }
}

/// Appends the serialized attributes of an element to `out`.
fn push_attrs(out: &mut Vec<char>, attrs: &Vec<(String, String)>)
    ensures
        final(out)@ == old(out)@ + attrs_markup(attrs.deep_view(), attrs.deep_view().len() as int),
{
    let m: usize = attrs.len();
    let mut i: usize = 0;
    while i < m
        invariant
            i <= m,
            m == attrs@.len(),
            m == attrs.deep_view().len(),
            out@ == old(out)@ + attrs_markup(attrs.deep_view(), i as int),
        decreases m - i,
    {
        proof {
            assert(attrs.deep_view()[i as int] == (attrs@[i as int].0@, attrs@[i as int].1@));
        }
        out.push(' ');
        push_str_chars(out, attrs[i].0.as_str());
        out.push('=');
        out.push('"');
        push_esc_attr(out, attrs[i].1.as_str());
        out.push('"');
        i = i + 1;
        assert(out@ =~= old(out)@ + attrs_markup(attrs.deep_view(), i as int));
    }
}

/// Appends the serialized markup of the nodes in `[j, hi)` to `out`.
#[verifier::rlimit(60)]
pub fn serialize_range(doc: &Vec<FlatNode>, j: usize, hi: usize, out: &mut Vec<char>)
    requires
        j <= hi <= doc@.len(),
    ensures
        final(out)@ == old(out)@ + ser_range(doc.deep_view(), j as int, hi as int),
    decreases hi - j,
{
    let ghost dv = doc.deep_view();
    if j >= hi {
        proof {
            assert(old(out)@ + ser_range(dv, j as int, hi as int) =~= old(out)@);
        }
        return ;
    }
    proof {
        deep_index(doc, j as int);
    }
    match &doc[j].data {
        NodeData::Text { text } => {
            push_esc_text(out, text.as_str());
            serialize_range(doc, j + 1, hi, out);
            proof {
                assert(out@ =~= old(out)@ + ser_range(dv, j as int, hi as int));
            }
        },
        NodeData::Elem { tag, attrs } => {
            let se = subtree_end_exec(doc, j);
            let e: usize = if se <= hi {
                se
            } else {
                hi
            };
            out.push('<');
            push_str_chars(out, tag.as_str());
            push_attrs(out, attrs);
            out.push('>');
            proof {
                assert(out@ =~= old(out)@ + open_markup(dv[j as int]));
            }
            let ghost mid1 = out@;
            serialize_range(doc, j + 1, e, out);
            out.push('<');
            out.push('/');
            push_str_chars(out, tag.as_str());
            out.push('>');
            proof {
                assert(out@ =~= mid1 + ser_range(dv, j + 1, e as int) + close_markup(
                    dv[j as int],
                ));
            }
            let ghost mid2 = out@;
            serialize_range(doc, e, hi, out);
            proof {
                assert(out@ == mid2 + ser_range(dv, e as int, hi as int));
                assert(out@ =~= old(out)@ + ser_range(dv, j as int, hi as int));
            }
        },
    }
}

/// The serialized contents of the element at `i`: the markup between its
/// opening and closing tags.
pub open spec fn inner_markup(doc: Seq<NodeView>, i: int) -> Seq<char> {
    ser_range(doc, i + 1, subtree_end(doc, i))
}

/// Serializes the contents of the element at `i`.
pub fn inner_markup_exec(doc: &Vec<FlatNode>, i: usize) -> (r: Vec<char>)
    requires
        i < doc@.len(),
    ensures
        r@ == inner_markup(doc.deep_view(), i as int),
{
    let se = subtree_end_exec(doc, i);
    let mut out: Vec<char> = Vec::new();
    serialize_range(doc, i + 1, se, &mut out);
    proof {
        assert(out@ =~= inner_markup(doc.deep_view(), i as int));
    }
    out
}

} // verus!
