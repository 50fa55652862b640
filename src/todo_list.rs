//! The document and item types, with their mathematical view.
use vstd::prelude::*;

use crate::tree::{Node, leaf, nodes};

verus! {

/// A named, file-backed forest of items. The top level of the outline is
/// `contents`; there is no single root item.
pub struct TodoList {
    pub name: String,
    pub path: String,
    pub contents: Vec<TodoItem>,
}

impl TodoList {
    /// A new empty document called `name`, stored at `path`.
    pub fn create(name: String, path: String) -> (r: TodoList)
        ensures
            r.name == name,
            r.path == path,
            r.contents@.len() == 0,
    {
        TodoList { name, path, contents: Vec::new() }
    }

    /// The top-level items, as mathematical nodes.
    pub open spec fn items(&self) -> Seq<Node> {
        nodes(self.contents@)
    }
}

/// One outline entry: a completion flag, a title and its children.
pub struct TodoItem {
    pub ticked_off: bool,
    pub title: String,
    pub contents: Vec<TodoItem>,
}

impl TodoItem {
    /// The item as a mathematical tree node.
    pub open spec fn node(&self) -> Node
        decreases self,
    {
        Node {
            ticked: self.ticked_off,
            title: self.title@,
            children: Seq::new(
                self.contents@.len(),
                |i: int|
                    if 0 <= i < self.contents@.len() {
                        self.contents@[i].node()
                    } else {
                        arbitrary()
                    },
            ),
        }
    }

    /// A new unticked item without children.
    pub fn create(title: String) -> (r: TodoItem)
        ensures
            r.node() == leaf(title@),
            r.title == title,
            !r.ticked_off,
            r.contents@.len() == 0,
    {
        let r = TodoItem { ticked_off: false, title, contents: Vec::new() };
        assert(r.node().children =~= Seq::<Node>::empty());
        r
    }
}

/// The node of an item has the nodes of its children as children.
pub broadcast proof fn lemma_node_children(x: TodoItem)
    ensures
        #[trigger] x.node() == (Node { ticked: x.ticked_off, title: x.title@, children: nodes(x.contents@) }),
{
    assert(x.node().children =~= nodes(x.contents@));
}

} // verus!
