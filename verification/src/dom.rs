//! A document tree held in an arena: nodes live in one growable table and
//! refer to each other by integer identifiers, so tree edits are plain table
//! updates and no reference cycles arise.
//!
//! Markup parsing and style resolution happen outside this crate: by the time
//! layout runs, every element node already carries its computed style
//! snapshot.

use crate::style::ComputedValues;
use std::sync::Arc;
use vstd::prelude::*;

verus! {

/// Index of a node in its document's arena.
pub type NodeId = usize;

/// What one node is.
pub enum NodeData {
    Document,
    Doctype,
    Text { contents: Vec<u8> },
    Comment,
    Element { style: Arc<ComputedValues> },
    ProcessingInstruction,
}

impl NodeData {
    pub open spec fn spec_is_text(&self) -> bool {
        self is Text
    }

    pub open spec fn spec_is_element(&self) -> bool {
        self is Element
    }
}

/// One node of the arena: its links and its data.
pub struct Node {
    pub parent: Option<NodeId>,
    pub children: Vec<NodeId>,
    pub data: NodeData,
}

/// A document tree. Index 0 is always the document node.
pub struct Document {
    pub nodes: Vec<Node>,
}

impl Document {
    /// The arena is well formed: there is a document node, and every child
    /// identifier points further down the table than its parent. Children
    /// after parents is the order in which a parse naturally fills the
    /// arena, and it is what makes every downward traversal bounded.
    pub open spec fn wf(&self) -> bool {
        &&& self.nodes@.len() >= 1
        &&& forall|i: int, j: int|
            0 <= i < self.nodes@.len() && 0 <= j < self.nodes@[i].children@.len()
                ==> i < #[trigger] self.nodes@[i].children@[j] < self.nodes@.len()
    }

    /// The identifier of the document node itself.
    pub fn document_node_id() -> (r: NodeId)
        ensures
            r == 0,
    {
        0
    }

    /// A document holding only the document node.
    pub fn new() -> (r: Document)
        ensures
            r.wf(),
            r.nodes@.len() == 1,
            r.nodes@[0].children@.len() == 0,
            r.nodes@[0].data is Document,
    {
        let mut nodes: Vec<Node> = Vec::new();
        nodes.push(Node { parent: None, children: Vec::new(), data: NodeData::Document });
        Document { nodes }
    }

    fn push_node(&mut self, parent: NodeId, data: NodeData) -> (r: NodeId)
        requires
            old(self).wf(),
            parent < old(self).nodes@.len(),
        ensures
            final(self).wf(),
            r == old(self).nodes@.len(),
            final(self).nodes@.len() == old(self).nodes@.len() + 1,
            final(self).nodes@[r as int].parent == Some(parent),
            final(self).nodes@[r as int].children@.len() == 0,
            final(self).nodes@[r as int].data == data,
            final(self).nodes@[parent as int].children@ == old(self).nodes@[parent as int].children@.push(r),
            final(self).nodes@[parent as int].parent == old(self).nodes@[parent as int].parent,
            final(self).nodes@[parent as int].data == old(self).nodes@[parent as int].data,
            forall|i: int|
                0 <= i < old(self).nodes@.len() && i != parent ==> final(self).nodes@[i]
                    == old(self).nodes@[i],
    {
        let id: NodeId = self.nodes.len();
        self.nodes.push(Node { parent: Some(parent), children: Vec::new(), data });
        let p = &mut self.nodes[parent];
        p.children.push(id);
        id
    }

    /// Append a fresh element node, carrying its computed style, as the last
    /// child of `parent`.
    pub fn push_element(&mut self, parent: NodeId, style: Arc<ComputedValues>) -> (r: NodeId)
        requires
            old(self).wf(),
            parent < old(self).nodes@.len(),
        ensures
            final(self).wf(),
            r == old(self).nodes@.len(),
            final(self).nodes@.len() == old(self).nodes@.len() + 1,
            final(self).nodes@[r as int].data == (NodeData::Element { style }),
            final(self).nodes@[r as int].children@.len() == 0,
            final(self).nodes@[parent as int].children@ == old(self).nodes@[parent as int].children@.push(r),
            forall|i: int|
                0 <= i < old(self).nodes@.len() && i != parent ==> final(self).nodes@[i]
                    == old(self).nodes@[i],
    {
        self.push_node(parent, NodeData::Element { style })
    }

    /// Append a fresh text node as the last child of `parent`.
    pub fn push_text(&mut self, parent: NodeId, contents: Vec<u8>) -> (r: NodeId)
        requires
            old(self).wf(),
            parent < old(self).nodes@.len(),
        ensures
            final(self).wf(),
            r == old(self).nodes@.len(),
            final(self).nodes@.len() == old(self).nodes@.len() + 1,
            final(self).nodes@[r as int].data == (NodeData::Text { contents }),
            final(self).nodes@[r as int].children@.len() == 0,
            final(self).nodes@[parent as int].children@ == old(self).nodes@[parent as int].children@.push(r),
            forall|i: int|
                0 <= i < old(self).nodes@.len() && i != parent ==> final(self).nodes@[i]
                    == old(self).nodes@[i],
    {
        self.push_node(parent, NodeData::Text { contents })
    }
}

/// The first position of `x` in `s`, or the length when it is absent.
pub open spec fn first_index_of(s: Seq<NodeId>, x: NodeId) -> int
    decreases s.len(),
{
    if s.len() == 0 {
        0
    } else if s[0] == x {
        0
    } else {
        1 + first_index_of(s.skip(1), x)
    }
}

proof fn lemma_first_index_of(s: Seq<NodeId>, x: NodeId)
    ensures
        0 <= first_index_of(s, x) <= s.len(),
        first_index_of(s, x) < s.len() ==> s[first_index_of(s, x)] == x,
    decreases s.len(),
{
    if s.len() > 0 && s[0] != x {
        lemma_first_index_of(s.skip(1), x);
    }
}

/// The child list of node `i` once `node` has been detached: `node`'s old
/// parent loses the first occurrence of `node`; everyone else is untouched.
pub open spec fn detached_children(doc: Document, node: NodeId, i: int) -> Seq<NodeId> {
    match doc.nodes@[node as int].parent {
        None => doc.nodes@[i].children@,
        Some(p) => if i == p {
            let kids = doc.nodes@[p as int].children@;
            let at = first_index_of(kids, node);
            if at < kids.len() {
                kids.remove(at)
            } else {
                kids
            }
        } else {
            doc.nodes@[i].children@
        },
    }
}

impl Document {
    fn find_child(&self, parent: NodeId, child: NodeId) -> (r: usize)
        requires
            parent < self.nodes@.len(),
        ensures
            r == first_index_of(self.nodes@[parent as int].children@, child),
            r <= self.nodes@[parent as int].children@.len(),
    {
        let n = self.nodes[parent].children.len();
        proof {
            assert(self.nodes@[parent as int].children@.skip(0)
                =~= self.nodes@[parent as int].children@);
        }
        let mut i: usize = 0;
        while i < n
            invariant
                parent < self.nodes@.len(),
                n == self.nodes@[parent as int].children@.len(),
                i <= n,
                first_index_of(self.nodes@[parent as int].children@, child) == i as int
                    + first_index_of(self.nodes@[parent as int].children@.skip(i as int), child),
                forall|k: int| 0 <= k < i ==> self.nodes@[parent as int].children@[k] != child,
            decreases n - i,
        {
            let ghost rest = self.nodes@[parent as int].children@.skip(i as int);
            if self.nodes[parent].children[i] == child {
                proof {
                    assert(rest[0] == child);
                }
                return i;
            }
            i += 1;
            proof {
                assert(rest.skip(1) =~= self.nodes@[parent as int].children@.skip(i as int));
            }
        }
        proof {
            assert(self.nodes@[parent as int].children@.skip(n as int).len() == 0);
        }
        n
    }

    /// Take a node out of its parent's child list, leaving it parentless.
    /// The node itself and its own subtree stay in the arena.
    pub fn detach(&mut self, node: NodeId)
        requires
            old(self).wf(),
            node < old(self).nodes@.len(),
            old(self).nodes@[node as int].parent matches Some(p) ==> p < old(self).nodes@.len()
                && p != node,
        ensures
            final(self).wf(),
            final(self).nodes@.len() == old(self).nodes@.len(),
            final(self).nodes@[node as int].parent is None,
            final(self).nodes@[node as int].children == old(self).nodes@[node as int].children,
            final(self).nodes@[node as int].data == old(self).nodes@[node as int].data,
            match old(self).nodes@[node as int].parent {
                None => *final(self) == *old(self),
                Some(p) => {
                    let kids = old(self).nodes@[p as int].children@;
                    let at = first_index_of(kids, node);
                    &&& (forall|i: int|
                        0 <= i < old(self).nodes@.len() && i != p && i != node
                            ==> final(self).nodes@[i] == old(self).nodes@[i])
                    &&& final(self).nodes@[p as int].children@ == (if at < kids.len() {
                        kids.remove(at)
                    } else {
                        kids
                    })
                    &&& final(self).nodes@[p as int].parent == old(self).nodes@[p as int].parent
                    &&& final(self).nodes@[p as int].data == old(self).nodes@[p as int].data
                },
            },
    {
        let parent = self.nodes[node].parent;
        match parent {
            None => {},
            Some(p) => {
                let at = self.find_child(p, node);
                proof {
                    lemma_first_index_of(self.nodes@[p as int].children@, node);
                }
                if at < self.nodes[p].children.len() {
                    let entry = &mut self.nodes[p];
                    entry.children.remove(at);
                }
                let me = &mut self.nodes[node];
                me.parent = None;
                proof {
                    assert forall|i: int, j: int|
                        0 <= i < self.nodes@.len() && 0 <= j < self.nodes@[i].children@.len()
                            implies i < #[trigger] self.nodes@[i].children@[j]
                            < self.nodes@.len() by {
                        if i == p {
                            let kids = old(self).nodes@[p as int].children@;
                            let at0 = first_index_of(kids, node);
                            if at0 < kids.len() {
                                assert(self.nodes@[i].children@[j] == kids.remove(at0)[j]);
                                if j < at0 {
                                    assert(kids.remove(at0)[j] == kids[j]);
                                } else {
                                    assert(kids.remove(at0)[j] == kids[j + 1]);
                                }
                            }
                        }
                    }
                }
            },
        }
    }

    /// Move a node to be the last child of `parent`, detaching it from any
    /// previous parent first. The child must sit further down the arena
    /// than its new parent, which keeps the arena well formed.
    pub fn append(&mut self, parent: NodeId, new_child: NodeId)
        requires
            old(self).wf(),
            parent < new_child < old(self).nodes@.len(),
            old(self).nodes@[new_child as int].parent matches Some(q)
                ==> q < old(self).nodes@.len() && q != new_child,
        ensures
            final(self).wf(),
            final(self).nodes@.len() == old(self).nodes@.len(),
            final(self).nodes@[new_child as int].parent == Some(parent),
            final(self).nodes@[new_child as int].children
                == old(self).nodes@[new_child as int].children,
            final(self).nodes@[new_child as int].data == old(self).nodes@[new_child as int].data,
            final(self).nodes@[parent as int].children@ == detached_children(
                *old(self),
                new_child,
                parent as int,
            ).push(new_child),
            final(self).nodes@[parent as int].parent == old(self).nodes@[parent as int].parent,
            final(self).nodes@[parent as int].data == old(self).nodes@[parent as int].data,
            forall|i: int|
                0 <= i < old(self).nodes@.len() && i != parent && i != new_child ==> {
                    &&& (#[trigger] final(self).nodes@[i]).children@ == detached_children(
                        *old(self),
                        new_child,
                        i,
                    )
                    &&& final(self).nodes@[i].parent == old(self).nodes@[i].parent
                    &&& final(self).nodes@[i].data == old(self).nodes@[i].data
                },
    {
        self.detach(new_child);
        proof {
            assert forall|i: int| 0 <= i < self.nodes@.len() implies (
            #[trigger] self.nodes@[i]).children@ == detached_children(
                *old(self),
                new_child,
                i,
            ) by {
                lemma_first_index_of(
                    old(self).nodes@[new_child as int].children@,
                    new_child,
                );
            }
        }
        let entry = &mut self.nodes[parent];
        entry.children.push(new_child);
        let me = &mut self.nodes[new_child];
        me.parent = Some(parent);
        proof {
            assert forall|i: int, j: int|
                0 <= i < self.nodes@.len() && 0 <= j < self.nodes@[i].children@.len() implies i < #[trigger] self.nodes@[i].children@[j] < self.nodes@.len() by {
            }
        }
    }

    /// Move a node to sit immediately before `sibling` in the latter's
    /// parent's child list. The new sibling must sit further down the arena
    /// than that parent, which keeps the arena well formed.
    pub fn insert_before(&mut self, sibling: NodeId, new_sibling: NodeId)
        requires
            old(self).wf(),
            sibling < old(self).nodes@.len(),
            new_sibling < old(self).nodes@.len(),
            old(self).nodes@[sibling as int].parent matches Some(p) && p < new_sibling,
            old(self).nodes@[new_sibling as int].parent matches Some(q)
                ==> q < old(self).nodes@.len() && q != new_sibling,
        ensures
            final(self).wf(),
            final(self).nodes@.len() == old(self).nodes@.len(),
            old(self).nodes@[sibling as int].parent matches Some(p) ==> {
                let base = detached_children(*old(self), new_sibling, p as int);
                &&& final(self).nodes@[new_sibling as int].parent == Some(p)
                &&& final(self).nodes@[new_sibling as int].children
                    == old(self).nodes@[new_sibling as int].children
                &&& final(self).nodes@[new_sibling as int].data
                    == old(self).nodes@[new_sibling as int].data
                &&& final(self).nodes@[p as int].children@ == base.insert(
                    first_index_of(base, sibling),
                    new_sibling,
                )
                &&& final(self).nodes@[p as int].parent == old(self).nodes@[p as int].parent
                &&& final(self).nodes@[p as int].data == old(self).nodes@[p as int].data
                &&& forall|i: int|
                    0 <= i < old(self).nodes@.len() && i != p && i != new_sibling ==> {
                        &&& (#[trigger] final(self).nodes@[i]).children@ == detached_children(
                            *old(self),
                            new_sibling,
                            i,
                        )
                        &&& final(self).nodes@[i].parent == old(self).nodes@[i].parent
                        &&& final(self).nodes@[i].data == old(self).nodes@[i].data
                    }
            },
    {
        let parent = match self.nodes[sibling].parent {
            Some(p) => p,
            None => vstd::pervasive::unreached(),
        };
        self.detach(new_sibling);
        proof {
            assert forall|i: int| 0 <= i < self.nodes@.len() implies (
            #[trigger] self.nodes@[i]).children@ == detached_children(
                *old(self),
                new_sibling,
                i,
            ) by {
                lemma_first_index_of(
                    old(self).nodes@[new_sibling as int].children@,
                    new_sibling,
                );
            }
        }
        let at = self.find_child(parent, sibling);
        proof {
            lemma_first_index_of(self.nodes@[parent as int].children@, sibling);
        }
        let entry = &mut self.nodes[parent];
        if at <= entry.children.len() {
            entry.children.insert(at, new_sibling);
        }
        let me = &mut self.nodes[new_sibling];
        me.parent = Some(parent);
        proof {
            let kids = old(self).nodes@;
            assert forall|i: int, j: int|
                0 <= i < self.nodes@.len() && 0 <= j < self.nodes@[i].children@.len() implies i < #[trigger] self.nodes@[i].children@[j] < self.nodes@.len() by {
                if i == parent {
                    let mid = self.nodes@[parent as int].children@;
                }
            }
        }
    }
}

/// The concatenated text of the direct text-node children of a node,
/// considering children from `from` onward.
pub open spec fn spec_child_text_from(doc: &Document, node: NodeId, from: int) -> Seq<u8>
    decreases doc.nodes@[node as int].children@.len() - from,
{
    let children = doc.nodes@[node as int].children@;
    if from < 0 || from >= children.len() {
        Seq::empty()
    } else {
        let child = doc.nodes@[children[from] as int];
        (match child.data {
            NodeData::Text { contents } => contents@,
            _ => Seq::empty(),
        }) + spec_child_text_from(doc, node, from + 1)
    }
}

impl Document {
    /// <https://dom.spec.whatwg.org/#concept-child-text-content>
    pub fn child_text_content(&self, node: NodeId) -> (r: Vec<u8>)
        requires
            self.wf(),
            node < self.nodes@.len(),
        ensures
            r@ == spec_child_text_from(self, node, 0),
    {
        let mut out: Vec<u8> = Vec::new();
        let n = self.nodes[node].children.len();
        let mut i: usize = 0;
        while i < n
            invariant
                self.wf(),
                node < self.nodes@.len(),
                n == self.nodes@[node as int].children@.len(),
                i <= n,
                out@ + spec_child_text_from(self, node, i as int) == spec_child_text_from(
                    self,
                    node,
                    0,
                ),
            decreases n - i,
        {
            let child = self.nodes[node].children[i];
            match &self.nodes[child].data {
                NodeData::Text { contents } => {
                    out.extend_from_slice(contents.as_slice());
                },
                _ => {},
            }
            i += 1;
            proof {
                assert(out@ + spec_child_text_from(self, node, i as int) =~= spec_child_text_from(
                    self,
                    node,
                    0,
                ));
            }
        }
        proof {
            assert(out@ =~= spec_child_text_from(self, node, 0));
        }
        out
    }
}

} // verus!
