use vstd::prelude::*;
use ego_tree::iter::Edge;
use scraper::{Html, Node, Selector};

verus! {

// ---------------------------------------------------------------------------
// Nodes
// ---------------------------------------------------------------------------

/// The three kinds of HTML node that the reference pages are read through.
#[derive(Debug, Clone, Copy, PartialEq, Eq, Structural)]
pub enum NodeKind {
    Element,
    Text,
    /// The document itself, comments, doctypes and the like.
    Other,
}

/// What one node of an HTML tree holds.
pub struct NodeData {
    pub kind: NodeKind,
    /// An element's local name (empty for other nodes).
    pub name: String,
    /// An element's classes.
    pub classes: Vec<String>,
    /// An element's attributes, as (namespace, local name, value).
    pub attrs: Vec<(String, String, String)>,
    /// A text node's text (empty for other nodes).
    pub text: String,
}

pub struct NodeDataView {
    pub kind: NodeKind,
    pub name: Seq<char>,
    pub classes: Seq<Seq<char>>,
    pub attrs: Seq<(Seq<char>, Seq<char>, Seq<char>)>,
    pub text: Seq<char>,
}

impl View for NodeData {
    type V = NodeDataView;

    open spec fn view(&self) -> NodeDataView {
        NodeDataView {
            kind: self.kind,
            name: self.name@,
            classes: self.classes.deep_view(),
            attrs: self.attrs.deep_view(),
            text: self.text@,
        }
    }
}

impl NodeData {
    /// An element node.
    pub fn element(name: String, classes: Vec<String>, attrs: Vec<(String, String, String)>) -> (r:
        NodeData)
        ensures
            r.kind == NodeKind::Element,
            r.name == name,
            r.classes == classes,
            r.attrs == attrs,
            r.text@ == Seq::<char>::empty(),
    {
        NodeData { kind: NodeKind::Element, name, classes, attrs, text: String::new() }
    }

    /// A text node.
    pub fn text(text: String) -> (r: NodeData)
        ensures
            r.kind == NodeKind::Text,
            r.name@ == Seq::<char>::empty(),
            r.classes@ == Seq::<String>::empty(),
            r.attrs@ == Seq::<(String, String, String)>::empty(),
            r.text == text,
    {
        NodeData {
            kind: NodeKind::Text,
            name: String::new(),
            classes: Vec::new(),
            attrs: Vec::new(),
            text,
        }
    }

    /// Any other node.
    pub fn other() -> (r: NodeData)
        ensures
            r@ == empty_data(),
    {
        let r = NodeData {
            kind: NodeKind::Other,
            name: String::new(),
            classes: Vec::new(),
            attrs: Vec::new(),
            text: String::new(),
        };
        assert(r.classes.deep_view() =~= Seq::<Seq<char>>::empty());
        assert(r.attrs.deep_view() =~= Seq::<(Seq<char>, Seq<char>, Seq<char>)>::empty());
        r
    }
}

/// A node of kind `Other` with nothing in it.
pub open spec fn empty_data() -> NodeDataView {
    NodeDataView {
        kind: NodeKind::Other,
        name: seq![],
        classes: seq![],
        attrs: seq![],
        text: seq![],
    }
}

/// One step of a depth-first walk of an HTML tree: a node is entered, or
/// the node entered last and not yet left is left.
pub enum HtmlEdge {
    Open(NodeData),
    Close,
}

pub enum HtmlEdgeView {
    Open(NodeDataView),
    Close,
}

impl View for HtmlEdge {
    type V = HtmlEdgeView;

    open spec fn view(&self) -> HtmlEdgeView {
        match self {
            HtmlEdge::Open(d) => HtmlEdgeView::Open(d@),
            HtmlEdge::Close => HtmlEdgeView::Close,
        }
    }
}

// ---------------------------------------------------------------------------
// Documents
// ---------------------------------------------------------------------------

/// An HTML tree stored in document order: node `i`'s descendants are the
/// nodes `i + 1 .. end[i]`, and `parent[i]` is the node directly above it.
/// Node 0 holds the whole tree.
pub struct Document {
    pub nodes: Vec<NodeData>,
    pub parent: Vec<usize>,
    pub end: Vec<usize>,
}

pub struct DocView {
    pub nodes: Seq<NodeDataView>,
    pub parent: Seq<int>,
    pub end: Seq<int>,
}

impl View for Document {
    type V = DocView;

    open spec fn view(&self) -> DocView {
        DocView {
            nodes: self.nodes@.map_values(|d: NodeData| d@),
            parent: self.parent@.map_values(|p: usize| p as int),
            end: self.end@.map_values(|e: usize| e as int),
        }
    }
}

impl DocView {
    pub open spec fn len(self) -> int {
        self.nodes.len() as int
    }

    /// Node `i` exists.
    pub open spec fn valid(self, i: int) -> bool {
        0 <= i < self.len()
    }

    /// The nodes form a tree rooted at node 0, stored in document order.
    pub open spec fn wf(self) -> bool {
        &&& self.len() >= 1
        &&& self.parent.len() == self.len()
        &&& self.end.len() == self.len()
        &&& self.end[0] == self.len()
        &&& self.parent[0] == 0
        &&& forall|i: int| 0 <= i < self.len() ==> i < #[trigger] self.end[i] <= self.len()
        &&& forall|i: int, j: int|
            0 <= i < self.len() && i < j < self.end[i] ==> #[trigger] self.end[j]
                <= #[trigger] self.end[i]
        &&& forall|i: int|
            0 < i < self.len() ==> {
                let p = #[trigger] self.parent[i];
                &&& 0 <= p < i < self.end[p]
                &&& forall|q: int| p < q < i ==> #[trigger] self.end[q] <= i
            }
    }

    pub open spec fn is_element(self, i: int) -> bool {
        self.valid(i) && self.nodes[i].kind == NodeKind::Element
    }

    pub open spec fn has_class(self, i: int, c: Seq<char>) -> bool {
        self.is_element(i) && self.nodes[i].classes.contains(c)
    }

    pub open spec fn has_name(self, i: int, name: Seq<char>) -> bool {
        self.is_element(i) && self.nodes[i].name == name
    }

    /// The text of the text nodes among `a .. b`, in order.
    pub open spec fn texts(self, a: int, b: int) -> Seq<char>
        decreases b - a,
    {
        if b <= a {
            seq![]
        } else {
            self.texts(a, b - 1) + (if self.nodes[b - 1].kind == NodeKind::Text {
                self.nodes[b - 1].text
            } else {
                seq![]
            })
        }
    }

    /// The text of node `i` and everything below it (`ElementRef::text`).
    pub open spec fn text_of(self, i: int) -> Seq<char> {
        self.texts(i, self.end[i])
    }

    /// The node after `j`'s subtree, then the one after that one's, and so on,
    /// as long as they begin before `stop`: the children of a node when `j`
    /// is its first child and `stop` its end.
    pub open spec fn sibling_run(self, j: int, stop: int) -> Seq<int>
        decreases self.len() - j,
    {
        if j >= stop || !self.valid(j) || self.end[j] <= j || self.end[j] > self.len() {
            seq![]
        } else {
            seq![j] + self.sibling_run(self.end[j], stop)
        }
    }

    /// The children of node `p`, in order.
    pub open spec fn children(self, p: int) -> Seq<int> {
        self.sibling_run(p + 1, self.end[p])
    }

    /// The node that follows `i` under the same parent.
    pub open spec fn next_sibling(self, i: int) -> Option<int> {
        if 0 < i < self.len() && self.end[i] < self.end[self.parent[i]] {
            Some(self.end[i])
        } else {
            None
        }
    }
}

// ---------------------------------------------------------------------------
// Building a document from a walk
// ---------------------------------------------------------------------------

/// The state of reading a walk: the nodes entered so far with their parents
/// and, for those already left, their ends; and the nodes entered but not
/// yet left, outermost first.
pub struct BuildState {
    pub nodes: Seq<NodeDataView>,
    pub parent: Seq<int>,
    pub end: Seq<int>,
    pub open: Seq<int>,
}

/// The state after reading `edges`, starting from a node 0 that holds
/// everything.  A node entered becomes a child of the innermost node not
/// yet left; a `Close` with only node 0 open is ignored.
pub open spec fn build_state(edges: Seq<HtmlEdgeView>) -> BuildState
    decreases edges.len(),
{
    if edges.len() == 0 {
        BuildState { nodes: seq![empty_data()], parent: seq![0], end: seq![0], open: seq![0] }
    } else {
        let st = build_state(edges.drop_last());
        match edges.last() {
            HtmlEdgeView::Open(d) => BuildState {
                nodes: st.nodes.push(d),
                parent: st.parent.push(st.open.last()),
                end: st.end.push(0),
                open: st.open.push(st.nodes.len() as int),
            },
            HtmlEdgeView::Close => if st.open.len() > 1 {
                BuildState {
                    nodes: st.nodes,
                    parent: st.parent,
                    end: st.end.update(st.open.last(), st.nodes.len() as int),
                    open: st.open.drop_last(),
                }
            } else {
                st
            },
        }
    }
}

/// The tree that a walk describes: the nodes still open at its end reach to
/// the end of the document.
pub open spec fn tree_of(edges: Seq<HtmlEdgeView>) -> DocView {
    let st = build_state(edges);
    DocView {
        nodes: st.nodes,
        parent: st.parent,
        end: Seq::new(
            st.nodes.len(),
            |i: int|
                if st.open.contains(i) {
                    st.nodes.len() as int
                } else {
                    st.end[i]
                },
        ),
    }
}

/// Effective end during the build: open nodes reach to the current end.
pub open spec fn eff_end(end: Seq<int>, is_open: Seq<bool>, n: int, i: int) -> int {
    if is_open[i] {
        n
    } else {
        end[i]
    }
}

/// What holds of the state while a walk is read.
pub open spec fn build_inv(
    nodes: Seq<NodeDataView>,
    parent: Seq<int>,
    end: Seq<int>,
    open: Seq<int>,
    is_open: Seq<bool>,
) -> bool {
    let n = nodes.len() as int;
    &&& n >= 1
    &&& parent.len() == n
    &&& end.len() == n
    &&& is_open.len() == n
    &&& open.len() >= 1
    &&& open[0] == 0
    &&& parent[0] == 0
    &&& forall|k: int, l: int| 0 <= k < l < open.len() ==> open[k] < open[l]
    &&& forall|k: int| 0 <= k < open.len() ==> 0 <= #[trigger] open[k] < n
    &&& forall|k: int| 0 <= k < open.len() ==> #[trigger] is_open[open[k]]
    &&& forall|i: int|
        0 <= i < n && #[trigger] is_open[i] ==> exists|k: int|
            0 <= k < open.len() && #[trigger] open[k] == i
    &&& forall|i: int| 0 <= i < n && !#[trigger] is_open[i] ==> i < end[i] <= n
    &&& forall|i: int, j: int|
        0 <= i < j < n && !#[trigger] is_open[i] && #[trigger] is_open[j] ==> !(j < end[i])
    &&& forall|i: int, j: int|
        0 <= i < j < eff_end(end, is_open, n, i) && j < n ==> #[trigger] eff_end(
            end,
            is_open,
            n,
            j,
        ) <= #[trigger] eff_end(end, is_open, n, i)
    &&& forall|i: int|
        0 < i < n ==> {
            let p = #[trigger] parent[i];
            &&& 0 <= p < i < eff_end(end, is_open, n, p)
            &&& forall|q: int| p < q < i ==> #[trigger] eff_end(end, is_open, n, q) <= i
        }
}

/// Every open node is at most the innermost one.
proof fn lemma_open_le_last(open: Seq<int>, is_open: Seq<bool>, n: int, i: int)
    requires
        open.len() >= 1,
        0 <= i < n,
        is_open.len() == n,
        is_open[i],
        forall|k: int, l: int| 0 <= k < l < open.len() ==> open[k] < open[l],
        forall|i: int|
            0 <= i < n && #[trigger] is_open[i] ==> exists|k: int|
                0 <= k < open.len() && #[trigger] open[k] == i,
    ensures
        i <= open.last(),
{
    let k = choose|k: int| 0 <= k < open.len() && #[trigger] open[k] == i;
    if k < open.len() - 1 {
        assert(open[k] < open[open.len() - 1]);
    }
}

/// Once every open node reaches to the end, the state is a well-formed tree.
proof fn lemma_closed_state_wf(d: DocView, end: Seq<int>, open: Seq<int>, is_open: Seq<bool>)
    requires
        build_inv(d.nodes, d.parent, end, open, is_open),
        d.end.len() == d.nodes.len(),
        forall|i: int|
            0 <= i < d.nodes.len() ==> #[trigger] d.end[i] == eff_end(
                end,
                is_open,
                d.nodes.len() as int,
                i,
            ),
    ensures
        d.wf(),
{
    let n = d.nodes.len() as int;
    assert(is_open[open[0]]);
    assert(d.end[0] == eff_end(end, is_open, n, 0));
    assert forall|i: int| 0 <= i < d.len() implies i < #[trigger] d.end[i] <= d.len() by {
        assert(d.end[i] == eff_end(end, is_open, n, i));
    }
    assert forall|i: int, j: int| 0 <= i < d.len() && i < j < d.end[i] implies #[trigger] d.end[j]
        <= #[trigger] d.end[i] by {
        assert(d.end[i] == eff_end(end, is_open, n, i));
        assert(d.end[j] == eff_end(end, is_open, n, j));
    }
    assert forall|i: int| 0 < i < d.len() implies {
        let p = #[trigger] d.parent[i];
        &&& 0 <= p < i < d.end[p]
        &&& forall|q: int| p < q < i ==> #[trigger] d.end[q] <= i
    } by {
        let p = d.parent[i];
        assert(d.end[p] == eff_end(end, is_open, n, p));
        assert forall|q: int| p < q < i implies #[trigger] d.end[q] <= i by {
            assert(d.end[q] == eff_end(end, is_open, n, q));
        }
    }
}

/// Reads a walk into a document.
pub fn build_document(edges: Vec<HtmlEdge>) -> (doc: Document)
    ensures
        doc@ == tree_of(edges@.map_values(|e: HtmlEdge| e@)),
        doc@.wf(),
{
    let ghost ev = edges@.map_values(|e: HtmlEdge| e@);
    let mut nodes: Vec<NodeData> = Vec::new();
    nodes.push(NodeData::other());
    let mut parent: Vec<usize> = Vec::new();
    parent.push(0);
    let mut end: Vec<usize> = Vec::new();
    end.push(0);
    let mut open: Vec<usize> = Vec::new();
    open.push(0);
    let ghost mut is_open: Seq<bool> = seq![true];
    proof {
        let st = build_state(ev.take(0));
        assert(ev.take(0) == Seq::<HtmlEdgeView>::empty());
        assert(nodes@.map_values(|d: NodeData| d@) == st.nodes);
        assert(open@.map_values(|p: usize| p as int) == st.open);
        assert(parent@.map_values(|p: usize| p as int) == st.parent);
        assert(end@.map_values(|p: usize| p as int) == st.end);
        assert(is_open[0]);
        assert(open@[0] == 0);
        let ov = open@.map_values(|p: usize| p as int);
        assert(ov[0] == 0);
        assert forall|i: int| 0 <= i < 1 && #[trigger] is_open[i] implies exists|k: int|
            0 <= k < ov.len() && #[trigger] ov[k] == i by {
            assert(ov[0] == i);
        }
        assert(build_inv(
            nodes@.map_values(|d: NodeData| d@),
            parent@.map_values(|p: usize| p as int),
            end@.map_values(|p: usize| p as int),
            ov,
            is_open,
        ));
    }
    for e in it: edges
        invariant
            ev == edges@.map_values(|e: HtmlEdge| e@),
            it.seq() == edges@,
            nodes@.len() == parent@.len(),
            nodes@.len() == end@.len(),
            ({
                let st = build_state(ev.take(it.index() as int));
                &&& nodes@.map_values(|d: NodeData| d@) == st.nodes
                &&& parent@.map_values(|p: usize| p as int) == st.parent
                &&& end@.map_values(|p: usize| p as int) == st.end
                &&& open@.map_values(|p: usize| p as int) == st.open
            }),
            build_inv(
                nodes@.map_values(|d: NodeData| d@),
                parent@.map_values(|p: usize| p as int),
                end@.map_values(|p: usize| p as int),
                open@.map_values(|p: usize| p as int),
                is_open,
            ),
    {
        let ghost k = it.index() as int;
        let ghost pre = ev.take(k);
        let ghost post = ev.take(k + 1);
        proof {
            assert(post.drop_last() == pre);
            assert(post.last() == e@);
        }
        let ghost nv0 = nodes@.map_values(|d: NodeData| d@);
        let ghost pv0 = parent@.map_values(|p: usize| p as int);
        let ghost ev0 = end@.map_values(|p: usize| p as int);
        let ghost ov0 = open@.map_values(|p: usize| p as int);
        let ghost n0 = nodes@.len() as int;
        match e {
            HtmlEdge::Open(d) => {
                let top = open[open.len() - 1];
                let idx = nodes.len();
                nodes.push(d);
                parent.push(top);
                end.push(0);
                open.push(idx);
                proof {
                    let io0 = is_open;
                    is_open = is_open.push(true);
                    assert(is_open.drop_last() =~= io0);
                    let nv = nodes@.map_values(|d: NodeData| d@);
                    let pv = parent@.map_values(|p: usize| p as int);
                    let evv = end@.map_values(|p: usize| p as int);
                    let ov = open@.map_values(|p: usize| p as int);
                    assert(nv == nv0.push(nodes@[n0]@));
                    assert(pv == pv0.push(top as int));
                    assert(evv == ev0.push(0));
                    assert(ov == ov0.push(idx as int));
                    let n = n0 + 1;
                    assert forall|i: int| 0 <= i < n0 implies eff_end(evv, is_open, n, i) == (
                    if is_open[i] {
                        n
                    } else {
                        eff_end(ev0, is_open.drop_last(), n0, i)
                    }) by {
                        assert(is_open.drop_last()[i] == is_open[i]);
                    }
                    assert forall|i: int| 0 <= i < n && #[trigger] is_open[i] implies exists|
                        k: int,
                    | 0 <= k < ov.len() && #[trigger] ov[k] == i by {
                        if i == n0 {
                            assert(ov[ov.len() - 1] == i);
                        } else {
                            assert(is_open.drop_last()[i]);
                            let k = choose|k: int|
                                0 <= k < ov0.len() && #[trigger] ov0[k] == i;
                            assert(ov[k] == i);
                        }
                    }
                    assert forall|i: int|
                        0 <= i < n0 && is_open[i] implies i <= top as int by {
                        assert(is_open.drop_last()[i]);
                        lemma_open_le_last(ov0, is_open.drop_last(), n0, i);
                    }
                    assert(build_inv(nv, pv, evv, ov, is_open)) by {
                        let old_open = is_open.drop_last();
                        assert forall|i: int, j: int|
                            0 <= i < j < eff_end(evv, is_open, n, i) && j < n implies #[trigger] eff_end(
                            evv,
                            is_open,
                            n,
                            j,
                        ) <= #[trigger] eff_end(evv, is_open, n, i) by {
                            if !is_open[i] {
                                assert(!old_open[i]);
                                if j < n0 {
                                    assert(!is_open[j]);
                                    assert(eff_end(ev0, old_open, n0, j) <= eff_end(
                                        ev0,
                                        old_open,
                                        n0,
                                        i,
                                    ));
                                }
                            }
                        }
                        assert forall|i: int| 0 < i < n implies {
                            let p = #[trigger] pv[i];
                            &&& 0 <= p < i < eff_end(evv, is_open, n, p)
                            &&& forall|q: int|
                                p < q < i ==> #[trigger] eff_end(evv, is_open, n, q) <= i
                        } by {
                            if i == n0 {
                                assert(pv[i] == top as int);
                                assert forall|q: int| top < q < i implies #[trigger] eff_end(
                                    evv,
                                    is_open,
                                    n,
                                    q,
                                ) <= i by {
                                    if is_open[q] {
                                        assert(q <= top);
                                    }
                                }
                            } else {
                                let p = pv0[i];
                                assert(pv[i] == p);
                                assert forall|q: int| p < q < i implies #[trigger] eff_end(
                                    evv,
                                    is_open,
                                    n,
                                    q,
                                ) <= i by {
                                    assert(eff_end(ev0, old_open, n0, q) <= i);
                                }
                            }
                        }
                        assert forall|i: int, j: int|
                            0 <= i < j < n && !#[trigger] is_open[i] && #[trigger] is_open[j]
                            implies !(j < evv[i]) by {
                            if j < n0 {
                                assert(!old_open[i] && old_open[j]);
                            }
                        }
                    }
                }
            },
            HtmlEdge::Close => {
                if open.len() > 1 {
                    proof {
                        assert(ov0[ov0.len() - 1] == open@[open@.len() - 1] as int);
                        assert(open@[open@.len() - 1] < n0);
                    }
                    let top = open.pop().unwrap();
                    let nlen = nodes.len();
                    end.set(top, nlen);
                    proof {
                        let old_open = is_open;
                        is_open = is_open.update(top as int, false);
                        let nv = nodes@.map_values(|d: NodeData| d@);
                        let pv = parent@.map_values(|p: usize| p as int);
                        let evv = end@.map_values(|p: usize| p as int);
                        let ov = open@.map_values(|p: usize| p as int);
                        assert(ov =~= ov0.drop_last());
                        assert(evv =~= ev0.update(top as int, n0));
                        let n = n0;
                        assert forall|i: int| 0 <= i < n implies eff_end(evv, is_open, n, i)
                            == eff_end(ev0, old_open, n0, i) by {}
                        assert forall|i: int| 0 <= i < n && #[trigger] is_open[i] implies exists|
                            k: int,
                        | 0 <= k < ov.len() && #[trigger] ov[k] == i by {
                            let k = choose|k: int| 0 <= k < ov0.len() && #[trigger] ov0[k] == i;
                            assert(k != ov0.len() - 1);
                            assert(ov[k] == i);
                        }
                        assert forall|i: int, j: int|
                            0 <= i < j < n && !#[trigger] is_open[i] && #[trigger] is_open[j]
                            implies !(j < evv[i]) by {
                            if i == top {
                                lemma_open_le_last(ov0, old_open, n0, j);
                            } else {
                                assert(!old_open[i] && old_open[j]);
                            }
                        }
                        assert(build_inv(nv, pv, evv, ov, is_open));
                    }
                }
            },
        }
    }
    let n = nodes.len();
    let ghost st = build_state(ev);
    proof {
        assert(ev.take(edges@.len() as int) == ev);
        assert forall|i: int| 0 <= i < n implies #[trigger] is_open[i] == st.open.contains(i) by {
            if is_open[i] {
                let k = choose|k: int| 0 <= k < st.open.len() && #[trigger] st.open[k] == i;
            }
            if st.open.contains(i) {
                let k = choose|k: int| 0 <= k < st.open.len() && #[trigger] st.open[k] == i;
                assert(is_open[st.open[k]]);
            }
        }
        assert(build_inv(st.nodes, st.parent, st.end, st.open, is_open));
        assert forall|j: int| 0 <= j < open@.len() implies (#[trigger] open@[j]) < n by {
            assert(st.open[j] == open@[j] as int);
        }
    }
    let mut k: usize = 0;
    while k < open.len()
        invariant
            n == nodes@.len(),
            n == end@.len(),
            0 <= k <= open@.len(),
            st == build_state(ev),
            build_inv(st.nodes, st.parent, st.end, st.open, is_open),
            nodes@.map_values(|d: NodeData| d@) == st.nodes,
            parent@.map_values(|p: usize| p as int) == st.parent,
            forall|i: int| 0 <= i < n ==> #[trigger] is_open[i] == st.open.contains(i),
            open@.map_values(|p: usize| p as int) == st.open,
            forall|j: int| 0 <= j < open@.len() ==> (#[trigger] open@[j]) < n,
            forall|i: int|
                0 <= i < n ==> #[trigger] end@[i] as int == (if st.open.take(k as int).contains(i) {
                    n as int
                } else {
                    st.end[i]
                }),
        decreases open.len() - k,
    {
        let i = open[k];
        let ghost end0 = end@;
        end.set(i, n);
        proof {
            assert(st.open.take(k + 1) =~= st.open.take(k as int).push(i as int));
            assert forall|j: int| 0 <= j < n implies #[trigger] end@[j] as int == (if st.open.take(k + 1).contains(j) {
                n as int
            } else {
                st.end[j]
            }) by {
                if j != i as int {
                    assert(end@[j] == end0[j]);
                    if st.open.take(k + 1).contains(j) {
                        let m = choose|m: int|
                            0 <= m < k + 1 && #[trigger] st.open.take(k + 1)[m] == j;
                        assert(st.open.take(k as int)[m] == j);
                    }
                    if st.open.take(k as int).contains(j) {
                        let m = choose|m: int|
                            0 <= m < k && #[trigger] st.open.take(k as int)[m] == j;
                        assert(st.open.take(k + 1)[m] == j);
                    }
                } else {
                    assert(st.open.take(k + 1)[k as int] == j);
                }
            }
        }
        k = k + 1;
    }
    let doc = Document { nodes, parent, end };
    proof {
        assert(st.open.take(st.open.len() as int) =~= st.open);
        let d = doc@;
        let t = tree_of(ev);
        assert(d.end =~= t.end);
        assert forall|i: int| 0 <= i < n implies #[trigger] d.end[i] == eff_end(
            st.end,
            is_open,
            n as int,
            i,
        ) by {}
        lemma_closed_state_wf(d, st.end, st.open, is_open);
    }
    doc
}

// ---------------------------------------------------------------------------
// Parsing HTML
// ---------------------------------------------------------------------------

/// The depth-first walk, from the document node, of the tree that
/// `scraper::Html::parse_document` builds from `html`.
pub uninterp spec fn html_walk(html: Seq<char>) -> Seq<HtmlEdgeView>;

/// Parses `html` with `scraper::Html::parse_document` and lists the walk that
/// `ego_tree::NodeRef::traverse` makes from the document node: an element as
/// its local name, its classes (`Element::classes`) and its attributes
/// (the `Element::attrs` field, each as namespace, local name and value), a
/// text node as its text, any other node as `Other`.
/// The contract only names the result: it is a function of `html` alone.
#[verifier::external_body]
fn parse_html_walk(html: &str) -> (r: Vec<HtmlEdge>)
    ensures
        r@.map_values(|e: HtmlEdge| e@) == html_walk(html@),
{
    let doc = Html::parse_document(html);
    doc.tree.root().traverse().map(|edge| match edge {
        Edge::Open(node) => HtmlEdge::Open(match node.value() {
            Node::Element(e) => NodeData::element(
                e.name().to_string(),
                e.classes().map(String::from).collect(),
                e.attrs.iter().map(|(k, v)| (k.ns.to_string(), k.local.to_string(), v.to_string())).collect(),
            ),
            Node::Text(t) => NodeData::text(t.text.to_string()),
            _ => NodeData::other(),
        }),
        Edge::Close(_) => HtmlEdge::Close,
    }).collect()
}

/// Whether `scraper::Selector::parse` accepts `text`.
pub uninterp spec fn selector_parses(text: Seq<char>) -> bool;

/// Whether `scraper::Selector::parse` accepts `text`.
#[verifier::external_body]
pub(crate) fn selector_is_valid(text: &str) -> (r: bool)
    ensures
        r == selector_parses(text@),
{
    Selector::parse(text).is_ok()
}

/// In the document that `scraper::Html::parse_document` builds from `html`,
/// the walk of the subtree of the first element that `Html::select` gives
/// for the selector `selector`; `None` where it gives none.
pub uninterp spec fn html_select_first_walk(html: Seq<char>, selector: Seq<char>) -> Option<
    Seq<HtmlEdgeView>,
>;

/// Parses `html` with `scraper::Html::parse_document` and `selector` with
/// `scraper::Selector::parse`, takes the first element of `Html::select`
/// (elements in the order the parser created them, those with a parent),
/// and lists the walk that `ego_tree::NodeRef::traverse` makes from it,
/// each node as `parse_html_walk` gives it. The contract names the result
/// and says that the walk begins by entering that element.
#[verifier::external_body]
fn select_first_walk(html: &str, selector: &str) -> (r: Option<Vec<HtmlEdge>>)
    requires
        selector_parses(selector@),
    ensures
        match r {
            Some(w) => html_select_first_walk(html@, selector@) == Some(
                w@.map_values(|e: HtmlEdge| e@),
            ) && w@.len() > 0 && w@[0] is Open,
            None => html_select_first_walk(html@, selector@) is None,
        },
{
    Html::parse_document(html).select(&Selector::parse(selector).unwrap()).next().map(|el| el.traverse().map(|edge| match edge {
        Edge::Open(node) => HtmlEdge::Open(match node.value() {
            Node::Element(e) => NodeData::element(e.name().to_string(), e.classes().map(String::from).collect(),
                e.attrs.iter().map(|(k, v)| (k.ns.to_string(), k.local.to_string(), v.to_string())).collect()),
            Node::Text(t) => NodeData::text(t.text.to_string()),
            _ => NodeData::other(),
        }),
        Edge::Close(_) => HtmlEdge::Close,
    }).collect())
}

/// In the document that `scraper::Html::parse_document` builds from `html`,
/// the nodes above the first element that `Html::select` gives for
/// `selector`, nearest first; `None` where it gives none.
pub uninterp spec fn html_select_first_ancestors(html: Seq<char>, selector: Seq<char>) -> Option<
    Seq<NodeDataView>,
>;

/// Parses `html` and `selector` as `select_first_walk` does, takes the
/// first element of `Html::select`, and lists the nodes that
/// `ego_tree::NodeRef::ancestors` gives for it (its parent first, the
/// document node last), each as `parse_html_walk` gives it. The contract
/// names the result only.
#[verifier::external_body]
fn select_first_ancestors(html: &str, selector: &str) -> (r: Option<Vec<NodeData>>)
    requires
        selector_parses(selector@),
    ensures
        match r {
            Some(a) => html_select_first_ancestors(html@, selector@) == Some(
                a@.map_values(|d: NodeData| d@),
            ),
            None => html_select_first_ancestors(html@, selector@) is None,
        },
{
    Html::parse_document(html).select(&Selector::parse(selector).unwrap()).next().map(|el| el.ancestors().map(|node| match node.value() {
        Node::Element(e) => NodeData::element(e.name().to_string(), e.classes().map(String::from).collect(),
            e.attrs.iter().map(|(k, v)| (k.ns.to_string(), k.local.to_string(), v.to_string())).collect()),
        Node::Text(t) => NodeData::text(t.text.to_string()),
        _ => NodeData::other(),
    }).collect())
}

/// Entering each of `a`'s nodes, the last first.
pub open spec fn opens_rev(a: Seq<NodeDataView>) -> Seq<HtmlEdgeView>
    decreases a.len(),
{
    if a.len() == 0 {
        seq![]
    } else {
        seq![HtmlEdgeView::Open(a.last())] + opens_rev(a.drop_last())
    }
}

/// The walk from the document node down to an element, then through the
/// element's subtree, given the element's ancestors (nearest first) and the
/// walk of its subtree. Siblings of the ancestors are left out.
pub open spec fn walk_through(ancestors: Seq<NodeDataView>, w: Seq<HtmlEdgeView>) -> Seq<HtmlEdgeView> {
    opens_rev(ancestors) + w
}

/// The number of nodes a walk enters.
pub open spec fn opens_count(w: Seq<HtmlEdgeView>) -> nat
    decreases w.len(),
{
    if w.len() == 0 {
        0
    } else {
        opens_count(w.drop_last()) + if w.last() is Open { 1nat } else { 0nat }
    }
}

proof fn lemma_nodes_count(w: Seq<HtmlEdgeView>)
    ensures
        build_state(w).nodes.len() == 1 + opens_count(w),
    decreases w.len(),
{
    if w.len() > 0 {
        lemma_nodes_count(w.drop_last());
        let st = build_state(w.drop_last());
        match w.last() {
            HtmlEdgeView::Open(d) => {
                assert(build_state(w).nodes == st.nodes.push(d));
            },
            HtmlEdgeView::Close => {
                assert(build_state(w).nodes == st.nodes);
            },
        }
    }
}

proof fn lemma_opens_count_concat(x: Seq<HtmlEdgeView>, y: Seq<HtmlEdgeView>)
    ensures
        opens_count(x + y) == opens_count(x) + opens_count(y),
    decreases y.len(),
{
    if y.len() == 0 {
        assert(x + y == x);
    } else {
        lemma_opens_count_concat(x, y.drop_last());
        assert((x + y).drop_last() == x + y.drop_last());
        assert((x + y).last() == y.last());
    }
}

proof fn lemma_opens_rev_count(a: Seq<NodeDataView>)
    ensures
        opens_count(opens_rev(a)) == a.len(),
    decreases a.len(),
{
    if a.len() > 0 {
        lemma_opens_rev_count(a.drop_last());
        let one = seq![HtmlEdgeView::Open(a.last())];
        lemma_opens_count_concat(one, opens_rev(a.drop_last()));
        assert(one.drop_last() == Seq::<HtmlEdgeView>::empty());
        assert(one.last() is Open);
        assert(opens_count(one) == opens_count(one.drop_last()) + 1);
        assert(opens_rev(a) == one + opens_rev(a.drop_last()));
    }
}

/// The walk through an element has a node for each ancestor, then the
/// element, whose index is one past the ancestors'.
pub proof fn lemma_walk_through_len(a: Seq<NodeDataView>, w: Seq<HtmlEdgeView>)
    requires
        w.len() > 0,
        w[0] is Open,
    ensures
        tree_of(walk_through(a, w)).len() >= a.len() + 2,
{
    let u = walk_through(a, w);
    lemma_nodes_count(u);
    lemma_opens_count_concat(opens_rev(a), w);
    lemma_opens_rev_count(a);
    let first = w.take(1);
    lemma_opens_count_concat(first, w.skip(1));
    assert(first + w.skip(1) == w);
    assert(first.drop_last() == Seq::<HtmlEdgeView>::empty());
    assert(first.last() == w[0]);
    assert(tree_of(u).nodes == build_state(u).nodes);
}

impl Document {
    /// The first element of the document parsed from `html` that `selector`
    /// selects (in `Html::select`'s order), with the tree made of its
    /// ancestors and its subtree, and its index there.
    pub fn select_first_in_html(html: &str, selector: &str) -> (r: Option<(Document, usize)>)
        requires
            selector_parses(selector@),
        ensures
            match (
                html_select_first_ancestors(html@, selector@),
                html_select_first_walk(html@, selector@),
            ) {
                (Some(a), Some(w)) => r matches Some((d, i)) && d@ == tree_of(walk_through(a, w))
                    && d@.wf() && i == a.len() + 1 && i < d@.len(),
                _ => r is None,
            },
    {
        let anc = select_first_ancestors(html, selector);
        let walk = select_first_walk(html, selector);
        match (anc, walk) {
            (Some(mut a), Some(mut w)) => {
                let ghost av = a@.map_values(|d: NodeData| d@);
                let ghost wv = w@.map_values(|e: HtmlEdge| e@);
                let n = a.len();
                let mut edges: Vec<HtmlEdge> = Vec::new();
                assert(av.take(a@.len() as int) == av);
                while a.len() > 0
                    invariant
                        a@.len() <= av.len(),
                        av.len() == n,
                        a@.map_values(|d: NodeData| d@) == av.take(a@.len() as int),
                        edges@.map_values(|e: HtmlEdge| e@) + opens_rev(av.take(a@.len() as int))
                            == opens_rev(av),
                    decreases a.len(),
                {
                    let ghost cur = av.take(a@.len() as int);
                    let d = a.pop().unwrap();
                    let ghost before = edges@.map_values(|e: HtmlEdge| e@);
                    edges.push(HtmlEdge::Open(d));
                    proof {
                        assert(cur.last() == d@);
                        assert(cur.drop_last() == av.take(a@.len() as int));
                        assert(edges@.map_values(|e: HtmlEdge| e@) == before + seq![
                            HtmlEdgeView::Open(d@),
                        ]);
                        assert(opens_rev(cur) == seq![HtmlEdgeView::Open(cur.last())] + opens_rev(
                            cur.drop_last(),
                        ));
                        assert(before + seq![HtmlEdgeView::Open(d@)] + opens_rev(cur.drop_last())
                            == before + opens_rev(cur));
                    }
                }
                assert(av.take(0) == Seq::<NodeDataView>::empty());
                assert(edges@.map_values(|e: HtmlEdge| e@) + Seq::<HtmlEdgeView>::empty()
                    == edges@.map_values(|e: HtmlEdge| e@));
                let ghost ev = edges@.map_values(|e: HtmlEdge| e@);
                edges.append(&mut w);
                assert(edges@.map_values(|e: HtmlEdge| e@) == ev + wv);
                proof {
                    lemma_walk_through_len(av, wv);
                }
                Some((build_document(edges), n + 1))
            },
            _ => None,
        }
    }
}

impl Document {
    /// The document that `html` describes.
    pub fn parse(html: &str) -> (doc: Document)
        ensures
            doc@ == tree_of(html_walk(html@)),
            doc@.wf(),
    {
        build_document(parse_html_walk(html))
    }

    pub fn len(&self) -> (r: usize)
        ensures
            r == self@.len(),
    {
        self.nodes.len()
    }

    /// Whether node `i` is an element.
    pub fn is_element(&self, i: usize) -> (r: bool)
        requires
            self@.wf(),
            i < self@.len(),
        ensures
            r == self@.is_element(i as int),
    {
        self.nodes[i].kind == NodeKind::Element
    }

    /// The end of node `i`'s subtree.
    pub fn end_of(&self, i: usize) -> (r: usize)
        requires
            self@.wf(),
            i < self@.len(),
        ensures
            r == self@.end[i as int],
    {
        self.end[i]
    }

    /// Whether node `i` is an element of class `c`.
    pub fn has_class(&self, i: usize, c: &String) -> (r: bool)
        requires
            self@.wf(),
            i < self@.len(),
        ensures
            r == self@.has_class(i as int, c@),
    {
        if self.nodes[i].kind != NodeKind::Element {
            return false;
        }
        let classes = &self.nodes[i].classes;
        let mut k: usize = 0;
        while k < classes.len()
            invariant
                self@.wf(),
                i < self@.len(),
                classes == &self.nodes@[i as int].classes,
                self.nodes@[i as int].kind == NodeKind::Element,
                k <= classes@.len(),
                forall|m: int| 0 <= m < k ==> classes@[m]@ != c@,
            decreases classes.len() - k,
        {
            if classes[k] == *c {
                assert(self@.nodes[i as int] == self.nodes@[i as int]@);
                assert(self@.nodes[i as int].classes[k as int] == c@);
                assert(self@.nodes[i as int].classes.contains(c@));
                return true;
            }
            k = k + 1;
        }
        assert(!self@.nodes[i as int].classes.contains(c@));
        false
    }

    /// Whether node `i` is an element named `name`.
    pub fn has_name(&self, i: usize, name: &String) -> (r: bool)
        requires
            self@.wf(),
            i < self@.len(),
        ensures
            r == self@.has_name(i as int, name@),
    {
        self.nodes[i].kind == NodeKind::Element && self.nodes[i].name == *name
    }

    /// Node `i`'s local name.
    pub fn name(&self, i: usize) -> (r: &String)
        requires
            self@.wf(),
            i < self@.len(),
        ensures
            r@ == self@.nodes[i as int].name,
    {
        &self.nodes[i].name
    }

    /// The text below node `i`, in document order (`ElementRef::text`).
    pub fn text_of(&self, i: usize) -> (r: String)
        requires
            self@.wf(),
            i < self@.len(),
        ensures
            r@ == self@.text_of(i as int),
    {
        let mut r = String::new();
        let stop = self.end[i];
        assert(self@.end[i as int] == stop);
        let mut a = i;
        while a < stop
            invariant
                self@.wf(),
                i <= a <= stop,
                stop == self@.end[i as int],
                stop <= self@.len(),
                r@ == self@.texts(i as int, a as int),
            decreases stop - a,
        {
            if self.nodes[a].kind == NodeKind::Text {
                r.append(self.nodes[a].text.as_str());
            }
            a = a + 1;
        }
        r
    }

    /// The next node under the same parent as `i`.
    pub fn next_sibling(&self, i: usize) -> (r: Option<usize>)
        requires
            self@.wf(),
            i < self@.len(),
        ensures
            r matches Some(j) ==> self@.next_sibling(i as int) == Some(j as int) && i < j < self@.len(),
            r is None ==> self@.next_sibling(i as int) is None,
    {
        if 0 < i && self.end[i] < self.end[self.parent[i]] {
            Some(self.end[i])
        } else {
            None
        }
    }

    /// The children of node `p`, in order.
    pub fn children(&self, p: usize) -> (r: Vec<usize>)
        requires
            self@.wf(),
            p < self@.len(),
        ensures
            r@.map_values(|j: usize| j as int) == self@.children(p as int),
            forall|k: int| 0 <= k < r@.len() ==> r@[k] < self@.len(),
    {
        let stop = self.end[p];
        assert(self@.end[p as int] == stop);
        let mut r: Vec<usize> = Vec::new();
        let mut j = p + 1;
        while j < stop
            invariant
                self@.wf(),
                p < j <= stop,
                stop == self@.end[p as int],
                stop <= self@.len(),
                self@.children(p as int) == r@.map_values(|x: usize| x as int) + self@.sibling_run(
                    j as int,
                    stop as int,
                ),
                forall|k: int| 0 <= k < r@.len() ==> r@[k] < self@.len(),
            decreases stop - j,
        {
            let ghost before = r@.map_values(|x: usize| x as int);
            r.push(j);
            assert(r@.map_values(|x: usize| x as int) == before.push(j as int));
            assert(self@.sibling_run(j as int, stop as int) == seq![j as int] + self@.sibling_run(
                self@.end[j as int],
                stop as int,
            ));
            assert(before + (seq![j as int] + self@.sibling_run(self@.end[j as int], stop as int))
                == before.push(j as int) + self@.sibling_run(self@.end[j as int], stop as int));
            j = self.end[j];
        }
        assert(self@.sibling_run(j as int, stop as int) == Seq::<int>::empty());
        assert(self@.children(p as int) == r@.map_values(|x: usize| x as int) + Seq::<int>::empty());
        r
    }
}

// ---------------------------------------------------------------------------
// Selectors
// ---------------------------------------------------------------------------

/// One compound of a CSS selector made of class and type selectors joined by
/// descendant combinators (`.refsect2`, `tbody tr`, `.enum_member_name p`).
pub enum SelPart {
    Class(String),
    Tag(String),
}

pub enum SelPartView {
    Class(Seq<char>),
    Tag(Seq<char>),
}

impl View for SelPart {
    type V = SelPartView;

    open spec fn view(&self) -> SelPartView {
        match self {
            SelPart::Class(c) => SelPartView::Class(c@),
            SelPart::Tag(t) => SelPartView::Tag(t@),
        }
    }
}

/// The parts of a selector as plain values.
pub open spec fn sel_view(sel: Seq<SelPart>) -> Seq<SelPartView> {
    sel.map_values(|p: SelPart| p@)
}

impl DocView {
    pub open spec fn part_matches(self, i: int, p: SelPartView) -> bool {
        match p {
            SelPartView::Class(c) => self.has_class(i, c),
            SelPartView::Tag(t) => self.has_name(i, t),
        }
    }

    /// Element `i` matches the last part of `sel`, and, if there are more,
    /// an element above it matches the rest.
    pub open spec fn matches(self, i: int, sel: Seq<SelPartView>) -> bool
        decreases sel.len(), i,
    {
        &&& sel.len() > 0
        &&& self.part_matches(i, sel.last())
        &&& (sel.len() == 1 || self.ancestor_matches(i, sel.drop_last()))
    }

    /// Some element on the chain of element parents of `j` matches `sel`.
    pub open spec fn ancestor_matches(self, j: int, sel: Seq<SelPartView>) -> bool
        decreases sel.len(), j,
    {
        if 0 < j < self.len() && 0 <= self.parent[j] < j && self.is_element(self.parent[j]) {
            self.matches(self.parent[j], sel) || self.ancestor_matches(self.parent[j], sel)
        } else {
            false
        }
    }

    /// The elements among `a .. b` that match `sel`, in document order.
    pub open spec fn select_from(self, a: int, b: int, sel: Seq<SelPartView>) -> Seq<int>
        decreases b - a,
    {
        if b <= a {
            seq![]
        } else {
            let s = self.select_from(a, b - 1, sel);
            if self.is_element(b - 1) && self.matches(b - 1, sel) {
                s.push(b - 1)
            } else {
                s
            }
        }
    }

    /// The elements strictly below `root` that match `sel`, in document
    /// order (`ElementRef::select`).
    pub open spec fn select_in(self, root: int, sel: Seq<SelPartView>) -> Seq<int> {
        self.select_from(root + 1, self.end[root], sel)
    }
}

/// An optional index as an integer.
pub open spec fn opt_int(r: Option<usize>) -> Option<int> {
    match r {
        Some(x) => Some(x as int),
        None => None,
    }
}

/// The first element of a sequence, if any.
pub open spec fn first_of(s: Seq<int>) -> Option<int> {
    if s.len() > 0 {
        Some(s[0])
    } else {
        None
    }
}

impl Document {
    fn part_matches(&self, i: usize, p: &SelPart) -> (r: bool)
        requires
            self@.wf(),
            i < self@.len(),
        ensures
            r == self@.part_matches(i as int, p@),
    {
        match p {
            SelPart::Class(c) => self.has_class(i, c),
            SelPart::Tag(t) => self.has_name(i, t),
        }
    }

    /// Whether element `i` matches the first `m` parts of `sel`.
    fn matches_prefix(&self, i: usize, sel: &[SelPart], m: usize) -> (r: bool)
        requires
            self@.wf(),
            i < self@.len(),
            m <= sel@.len(),
        ensures
            r == self@.matches(i as int, sel_view(sel@.take(m as int))),
        decreases m, i,
    {
        let ghost sv = sel_view(sel@.take(m as int));
        if m == 0 {
            return false;
        }
        assert(sv.last() == sel@[m - 1]@);
        if !self.part_matches(i, &sel[m - 1]) {
            return false;
        }
        if m == 1 {
            return true;
        }
        assert(sv.drop_last() == sel_view(sel@.take(m - 1)));
        self.ancestor_matches_prefix(i, sel, m - 1)
    }

    /// Whether an element on the chain of element parents of `j` matches the
    /// first `m` parts of `sel`.
    fn ancestor_matches_prefix(&self, j: usize, sel: &[SelPart], m: usize) -> (r: bool)
        requires
            self@.wf(),
            j < self@.len(),
            m <= sel@.len(),
        ensures
            r == self@.ancestor_matches(j as int, sel_view(sel@.take(m as int))),
        decreases m, j, 0nat,
    {
        let ghost sv = sel_view(sel@.take(m as int));
        let mut cur = j;
        while cur > 0 && self.parent[cur] < cur && self.nodes[self.parent[cur]].kind
            == NodeKind::Element
            invariant
                self@.wf(),
                cur <= j < self@.len(),
                m <= sel@.len(),
                sv == sel_view(sel@.take(m as int)),
                self@.ancestor_matches(j as int, sv) == self@.ancestor_matches(cur as int, sv),
            decreases cur,
        {
            let p = self.parent[cur];
            assert(self@.parent[cur as int] == p);
            if self.matches_prefix(p, sel, m) {
                return true;
            }
            cur = p;
        }
        proof {
            if cur > 0 {
                assert(self@.parent[cur as int] == self.parent@[cur as int]);
            }
        }
        false
    }

    /// The elements among `a .. b` that match `sel`.
    fn select_range(&self, a: usize, b: usize, sel: &[SelPart]) -> (r: Vec<usize>)
        requires
            self@.wf(),
            a <= b <= self@.len(),
        ensures
            r@.map_values(|x: usize| x as int) == self@.select_from(a as int, b as int, sel_view(sel@)),
            forall|k: int| 0 <= k < r@.len() ==> a <= #[trigger] r@[k] < b,
    {
        let ghost sv = sel_view(sel@);
        assert(sel@.take(sel@.len() as int) == sel@);
        let mut r: Vec<usize> = Vec::new();
        let mut k = a;
        while k < b
            invariant
                self@.wf(),
                a <= k <= b <= self@.len(),
                sv == sel_view(sel@),
                sel@.take(sel@.len() as int) == sel@,
                r@.map_values(|x: usize| x as int) == self@.select_from(a as int, k as int, sv),
                forall|m: int| 0 <= m < r@.len() ==> a <= #[trigger] r@[m] < k,
            decreases b - k,
        {
            if self.is_element(k) && self.matches_prefix(k, sel, sel.len()) {
                let ghost before = r@.map_values(|x: usize| x as int);
                r.push(k);
                assert(r@.map_values(|x: usize| x as int) == before.push(k as int));
            }
            k = k + 1;
        }
        r
    }

    /// The elements strictly below `root` that match `sel`, in document order.
    pub fn select(&self, root: usize, sel: &[SelPart]) -> (r: Vec<usize>)
        requires
            self@.wf(),
            root < self@.len(),
        ensures
            r@.map_values(|x: usize| x as int) == self@.select_in(root as int, sel_view(sel@)),
            forall|k: int| 0 <= k < r@.len() ==> #[trigger] r@[k] < self@.len(),
    {
        let stop = self.end[root];
        assert(self@.end[root as int] == stop);
        self.select_range(root + 1, stop, sel)
    }

    /// The first element strictly below `root` that matches `sel`.
    pub fn select_first(&self, root: usize, sel: &[SelPart]) -> (r: Option<usize>)
        requires
            self@.wf(),
            root < self@.len(),
        ensures
            opt_int(r) == first_of(self@.select_in(root as int, sel_view(sel@))),
            r matches Some(x) ==> x < self@.len(),
    {
        let all = self.select(root, sel);
        if all.len() > 0 {
            assert(all@.map_values(|x: usize| x as int)[0] == all@[0] as int);
            Some(all[0])
        } else {
            None
        }
    }
}

/// The value of the first attribute outside any namespace whose local name
/// is `key`.
pub open spec fn first_attr(attrs: Seq<(Seq<char>, Seq<char>, Seq<char>)>, key: Seq<char>) -> Option<
    Seq<char>,
>
    decreases attrs.len(),
{
    if attrs.len() == 0 {
        None
    } else if attrs[0].0.len() == 0 && attrs[0].1 == key {
        Some(attrs[0].2)
    } else {
        first_attr(attrs.drop_first(), key)
    }
}

impl DocView {
    /// The value of element `i`'s attribute `key`.
    pub open spec fn attr(self, i: int, key: Seq<char>) -> Option<Seq<char>> {
        if self.is_element(i) {
            first_attr(self.nodes[i].attrs, key)
        } else {
            None
        }
    }
}

/// An optional string as its characters.
pub open spec fn opt_chars(r: Option<String>) -> Option<Seq<char>> {
    match r {
        Some(s) => Some(s@),
        None => None,
    }
}

impl Document {
    /// The value of element `i`'s attribute `key`.
    pub fn attr(&self, i: usize, key: &String) -> (r: Option<String>)
        requires
            self@.wf(),
            i < self@.len(),
        ensures
            opt_chars(r) == self@.attr(i as int, key@),
    {
        if self.nodes[i].kind != NodeKind::Element {
            return None;
        }
        let attrs = &self.nodes[i].attrs;
        let ghost all = attrs.deep_view();
        assert(self@.nodes[i as int] == self.nodes@[i as int]@);
        assert(all.skip(0) == all);
        let mut k: usize = 0;
        while k < attrs.len()
            invariant
                k <= attrs@.len(),
                all == attrs.deep_view(),
                self@.attr(i as int, key@) == first_attr(all, key@),
                first_attr(all, key@) == first_attr(all.skip(k as int), key@),
            decreases attrs.len() - k,
        {
            assert(all.skip(k as int)[0] == all[k as int]);
            assert(all.skip(k as int).drop_first() == all.skip(k + 1));
            assert(all[k as int] == (attrs@[k as int].0@, attrs@[k as int].1@, attrs@[k as int].2@));
            if attrs[k].0.as_str().is_empty() && attrs[k].1 == *key {
                return Some(attrs[k].2.clone());
            }
            k = k + 1;
        }
        assert(all.skip(k as int).len() == 0);
        None
    }
}

} // verus!
