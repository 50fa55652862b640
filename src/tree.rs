//! The mathematical outline: nodes, paths of sibling indices into a forest,
//! the list a path designates, and replacing that list.
use vstd::prelude::*;

use crate::todo_list::{TodoItem, lemma_node_children};

verus! {

/// An outline entry as a mathematical value.
pub ghost struct Node {
    pub ticked: bool,
    pub title: Seq<char>,
    pub children: Seq<Node>,
}

/// A new unticked node with the given title and no children.
pub open spec fn leaf(title: Seq<char>) -> Node {
    Node { ticked: false, title, children: Seq::empty() }
}

/// The nodes of a sequence of items.
pub open spec fn nodes(s: Seq<TodoItem>) -> Seq<Node> {
    Seq::new(s.len(), |i: int| s[i].node())
}

/// `n` with its children replaced by `c`.
pub open spec fn with_children(n: Node, c: Seq<Node>) -> Node {
    Node { children: c, ..n }
}

/// Every index of `p` designates an existing node, descending from `root`.
pub open spec fn path_valid(root: Seq<Node>, p: Seq<usize>) -> bool
    decreases p.len(),
{
    p.len() == 0 || (p[0] < root.len() && path_valid(root[p[0] as int].children, p.drop_first()))
}

/// The sibling list reached from `root` by following `p`.
pub open spec fn list_at(root: Seq<Node>, p: Seq<usize>) -> Seq<Node>
    decreases p.len(),
{
    if p.len() == 0 {
        root
    } else {
        list_at(root[p[0] as int].children, p.drop_first())
    }
}

/// `root` with the sibling list reached by `p` replaced by `new`.
pub open spec fn update_at(root: Seq<Node>, p: Seq<usize>, new: Seq<Node>) -> Seq<Node>
    decreases p.len(),
{
    if p.len() == 0 {
        new
    } else {
        root.update(
            p[0] as int,
            with_children(root[p[0] as int], update_at(root[p[0] as int].children, p.drop_first(), new)),
        )
    }
}

/// Following one more index descends into the children of the node it selects.
pub proof fn lemma_list_at_push(root: Seq<Node>, p: Seq<usize>, i: usize)
    requires
        path_valid(root, p),
        i < list_at(root, p).len(),
    ensures
        path_valid(root, p.push(i)),
        list_at(root, p.push(i)) == list_at(root, p)[i as int].children,
    decreases p.len(),
{
    if p.len() > 0 {
        assert(p.push(i).drop_first() =~= p.drop_first().push(i));
        assert(p.push(i)[0] == p[0]);
        lemma_list_at_push(root[p[0] as int].children, p.drop_first(), i);
    } else {
        let q = p.push(i);
        assert(q.drop_first() =~= Seq::<usize>::empty());
        assert(path_valid(root[i as int].children, q.drop_first()));
        assert(list_at(root[i as int].children, q.drop_first()) == root[i as int].children);
    }
}

/// A valid path stays valid when its last index is dropped.
pub proof fn lemma_path_valid_prefix(root: Seq<Node>, p: Seq<usize>)
    requires
        path_valid(root, p),
        p.len() > 0,
    ensures
        path_valid(root, p.drop_last()),
        p.last() < list_at(root, p.drop_last()).len(),
        list_at(root, p) == list_at(root, p.drop_last())[p.last() as int].children,
{
    assert(p =~= p.drop_last().push(p.last()));
    lemma_valid_push_back(root, p.drop_last(), p.last());
    lemma_list_at_push(root, p.drop_last(), p.last());
}

/// A path whose extension by `i` is valid is itself valid, and `i` indexes its list.
pub proof fn lemma_valid_push_back(root: Seq<Node>, p: Seq<usize>, i: usize)
    requires
        path_valid(root, p.push(i)),
    ensures
        path_valid(root, p),
        i < list_at(root, p).len(),
    decreases p.len(),
{
    if p.len() > 0 {
        assert(p.push(i).drop_first() =~= p.drop_first().push(i));
        lemma_valid_push_back(root[p[0] as int].children, p.drop_first(), i);
    }
}

/// After replacing the list at `p`, the list found at `p` is the new one, and
/// `p` is still valid.
pub proof fn lemma_update_at(root: Seq<Node>, p: Seq<usize>, new: Seq<Node>)
    requires
        path_valid(root, p),
    ensures
        path_valid(update_at(root, p, new), p),
        list_at(update_at(root, p, new), p) == new,
    decreases p.len(),
{
    if p.len() > 0 {
        lemma_update_at(root[p[0] as int].children, p.drop_first(), new);
    }
}

/// Replacing the list at `p` by the list already there changes nothing.
pub proof fn lemma_update_at_same(root: Seq<Node>, p: Seq<usize>)
    requires
        path_valid(root, p),
    ensures
        update_at(root, p, list_at(root, p)) == root,
    decreases p.len(),
{
    if p.len() > 0 {
        lemma_update_at_same(root[p[0] as int].children, p.drop_first());
        assert(update_at(root, p, list_at(root, p)) =~= root);
    }
}

/// Replacing twice at the same path keeps the second list only.
pub proof fn lemma_update_at_twice(root: Seq<Node>, p: Seq<usize>, a: Seq<Node>, b: Seq<Node>)
    requires
        path_valid(root, p),
    ensures
        update_at(update_at(root, p, a), p, b) == update_at(root, p, b),
    decreases p.len(),
{
    if p.len() > 0 {
        lemma_update_at_twice(root[p[0] as int].children, p.drop_first(), a, b);
        assert(update_at(update_at(root, p, a), p, b) =~= update_at(root, p, b));
    }
}

/// Whether every index of `p[k..end]` designates a node, descending from `root`.
pub fn path_fits(root: &Vec<TodoItem>, p: &Vec<usize>, k: usize, end: usize) -> (r: bool)
    requires
        k <= end <= p.len(),
    ensures
        r == path_valid(nodes(root@), p@.subrange(k as int, end as int)),
    decreases end - k,
{
    if k == end {
        true
    } else {
        let i = p[k];
        let ghost sub = p@.subrange(k as int, end as int);
        assert(sub.drop_first() =~= p@.subrange(k + 1, end as int));
        if i >= root.len() {
            false
        } else {
            let item = &root[i];
            proof { lemma_node_children(*item); }
            path_fits(&item.contents, p, k + 1, end)
        }
    }
}

/// Walks `p[k..end]` down from `root` and returns the list found there.
pub fn list_ref<'a>(root: &'a Vec<TodoItem>, p: &Vec<usize>, k: usize, end: usize) -> (r: &'a Vec<TodoItem>)
    requires
        k <= end <= p.len(),
        path_valid(nodes(root@), p@.subrange(k as int, end as int)),
    ensures
        nodes(r@) == list_at(nodes(root@), p@.subrange(k as int, end as int)),
    decreases end - k,
{
    if k == end {
        root
    } else {
        let i = p[k];
        let ghost sub = p@.subrange(k as int, end as int);
        assert(sub.drop_first() =~= p@.subrange(k + 1, end as int));
        let item = &root[i];
        proof { lemma_node_children(*item); }
        list_ref(&item.contents, p, k + 1, end)
    }
}

/// Walks `p[k..end]` down from `root` and lends out the list found there.
/// Whatever the caller leaves in that list ends up at that place in `root`.
pub fn list_mut<'a>(root: &'a mut Vec<TodoItem>, p: &Vec<usize>, k: usize, end: usize) -> (r: &'a mut Vec<TodoItem>)
    requires
        k <= end <= p.len(),
        path_valid(nodes(old(root)@), p@.subrange(k as int, end as int)),
    ensures
        nodes(r@) == list_at(nodes(old(root)@), p@.subrange(k as int, end as int)),
        nodes(final(root)@) == update_at(nodes(old(root)@), p@.subrange(k as int, end as int), nodes(final(r)@)),
    decreases end - k,
{
    if k == end {
        root
    } else {
        let i = p[k];
        let ghost sub = p@.subrange(k as int, end as int);
        assert(sub.drop_first() =~= p@.subrange(k + 1, end as int));
        let item = &mut root[i];
        proof { lemma_node_children(*item); }
        let r = list_mut(&mut item.contents, p, k + 1, end);
        proof {
            broadcast use lemma_node_children;
        }
        r
    }
}

} // verus!
