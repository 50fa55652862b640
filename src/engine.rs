//! The outline engine as pure transitions on a forest and a cursor path.
//!
//! A cursor is a sequence of sibling indices, one per depth. All but its last
//! entry lead to the "current list"; the last entry selects a node in it.
use vstd::prelude::*;

use crate::tree::{Node, leaf, list_at, path_valid, update_at, with_children};
use vstd::arithmetic::div_mod::{lemma_fundamental_div_mod, lemma_fundamental_div_mod_converse};

verus! {

/// The cursor designates a node of `doc`, or is `[0]` on an empty document.
pub open spec fn cursor_ok(doc: Seq<Node>, c: Seq<usize>) -> bool {
    &&& c.len() >= 1
    &&& path_valid(doc, c.drop_last())
    &&& (c.last() < list_at(doc, c.drop_last()).len() || (c.len() == 1 && c[0] == 0 && doc.len() == 0))
}

/// The sibling list that the last cursor entry indexes into.
pub open spec fn current_list(doc: Seq<Node>, c: Seq<usize>) -> Seq<Node> {
    list_at(doc, c.drop_last())
}

/// `c` with its last entry replaced by `i`.
pub open spec fn with_last(c: Seq<usize>, i: usize) -> Seq<usize> {
    c.drop_last().push(i)
}

/// Index `i` moved `n` places forward, wrapping around a list of length `len`.
pub open spec fn wrap_down(i: usize, n: usize, len: usize) -> usize {
    ((i + n) % (len as int)) as usize
}

/// Index `i` moved `n` places backward, wrapping around a list of length `len`.
pub open spec fn wrap_up(i: usize, n: usize, len: usize) -> usize {
    ((i - n) % (len as int)) as usize
}

/// Moving forward by `n` is moving forward by `n % len`, folded back once.
pub proof fn lemma_wrap_down(i: usize, n: usize, len: usize)
    requires
        i < len,
    ensures
        wrap_down(i, n, len) == if i + (n as int) % (len as int) < len {
            i + (n as int) % (len as int)
        } else {
            i + (n as int) % (len as int) - len
        },
{
    let d = len as int;
    let m = (n as int) % d;
    let q = (n as int) / d;
    lemma_fundamental_div_mod(n as int, d);
    if i + m < len {
        assert(i + n == q * d + (i + m)) by (nonlinear_arith)
            requires n == d * q + m;
        lemma_fundamental_div_mod_converse(i + n, d, q, i + m);
    } else {
        assert(i + n == (q + 1) * d + (i + m - d)) by (nonlinear_arith)
            requires n == d * q + m;
        lemma_fundamental_div_mod_converse(i + n, d, q + 1, i + m - d);
    }
}

/// Moving backward by `n` is moving backward by `n % len`, folded back once.
pub proof fn lemma_wrap_up(i: usize, n: usize, len: usize)
    requires
        i < len,
    ensures
        wrap_up(i, n, len) == if i >= (n as int) % (len as int) {
            i - (n as int) % (len as int)
        } else {
            i + len - (n as int) % (len as int)
        },
{
    let d = len as int;
    let m = (n as int) % d;
    let q = (n as int) / d;
    lemma_fundamental_div_mod(n as int, d);
    if i >= m {
        assert(i - n == (-q) * d + (i - m)) by (nonlinear_arith)
            requires n == d * q + m;
        lemma_fundamental_div_mod_converse(i - n, d, -q, i - m);
    } else {
        assert(i - n == (-q - 1) * d + (i + d - m)) by (nonlinear_arith)
            requires n == d * q + m;
        lemma_fundamental_div_mod_converse(i - n, d, -q - 1, i + d - m);
    }
}

/// Where a 1-based position `num` lands in a list of length `len`, counted
/// from the start, or from the end when `from_end`; `None` when it names no
/// element.
pub open spec fn goto_target(num: usize, from_end: bool, len: usize) -> Option<usize> {
    if num == 0 || num > len {
        None
    } else if from_end {
        Some((len - num) as usize)
    } else {
        Some((num - 1) as usize)
    }
}

/// The document after inserting a new node titled `t` before the selection.
pub open spec fn insert_before_doc(doc: Seq<Node>, c: Seq<usize>, t: Seq<char>) -> Seq<Node> {
    update_at(doc, c.drop_last(), current_list(doc, c).insert(c.last() as int, leaf(t)))
}

/// The index at which `append_after` inserts: one past the selection, unless
/// that is past the end of the list.
pub open spec fn append_index(doc: Seq<Node>, c: Seq<usize>) -> usize {
    if c.last() + 1 <= current_list(doc, c).len() {
        (c.last() + 1) as usize
    } else {
        c.last()
    }
}

/// The document after inserting a new node titled `t` after the selection.
pub open spec fn append_after_doc(doc: Seq<Node>, c: Seq<usize>, t: Seq<char>) -> Seq<Node> {
    update_at(doc, c.drop_last(), current_list(doc, c).insert(append_index(doc, c) as int, leaf(t)))
}

/// The document after giving the selected node a new last child titled `t`.
pub open spec fn insert_child_doc(doc: Seq<Node>, c: Seq<usize>, t: Seq<char>) -> Seq<Node> {
    let l = current_list(doc, c);
    let n = l[c.last() as int];
    update_at(doc, c.drop_last(), l.update(c.last() as int, with_children(n, n.children.push(leaf(t)))))
}

/// The document after removing the selected node.
pub open spec fn delete_doc(doc: Seq<Node>, c: Seq<usize>) -> Seq<Node> {
    update_at(doc, c.drop_last(), current_list(doc, c).remove(c.last() as int))
}

/// The cursor after removing the selected node: unchanged while it still
/// indexes the shortened list; on the new last element when it ran past the
/// end; one level up when the list became empty below the top level.
pub open spec fn delete_cursor(doc: Seq<Node>, c: Seq<usize>) -> Seq<usize> {
    let n = (current_list(doc, c).len() - 1) as int;
    if c.last() < n {
        c
    } else if n == 0 {
        if c.len() > 1 {
            c.drop_last()
        } else {
            c
        }
    } else {
        with_last(c, (n - 1) as usize)
    }
}

/// The document after inserting `x` at the selection.
pub open spec fn restore_doc(doc: Seq<Node>, c: Seq<usize>, x: Node) -> Seq<Node> {
    update_at(doc, c.drop_last(), current_list(doc, c).insert(c.last() as int, x))
}

/// `s` with the elements at `a` and `b` exchanged.
pub open spec fn swap<A>(s: Seq<A>, a: int, b: int) -> Seq<A> {
    s.update(a, s[b]).update(b, s[a])
}

/// The current list after moving the selection one place up; the first
/// element moves to the end.
pub open spec fn sibling_up_list(l: Seq<Node>, i: usize) -> Seq<Node> {
    if i > 0 {
        swap(l, i - 1, i as int)
    } else {
        l.drop_first().push(l[0])
    }
}

/// The current list after moving the selection one place down; the last
/// element moves to the front.
pub open spec fn sibling_down_list(l: Seq<Node>, i: usize) -> Seq<Node> {
    if i + 1 < l.len() {
        swap(l, i as int, i + 1)
    } else {
        seq![l.last()] + l.drop_last()
    }
}

/// Where the moved node stands after a move up (`up`) or down.
pub open spec fn sibling_index(len: usize, i: usize, up: bool) -> usize {
    if up {
        if i > 0 { (i - 1) as usize } else { (len - 1) as usize }
    } else {
        if i + 1 < len { (i + 1) as usize } else { 0 }
    }
}

/// The document after moving the selected node among its siblings.
pub open spec fn move_sibling_doc(doc: Seq<Node>, c: Seq<usize>, up: bool) -> Seq<Node> {
    let l = current_list(doc, c);
    update_at(
        doc,
        c.drop_last(),
        if up { sibling_up_list(l, c.last()) } else { sibling_down_list(l, c.last()) },
    )
}

/// `reparent_out` applies: below the top level, with a selection, and the
/// parent has an earlier sibling.
pub open spec fn can_reparent_out(doc: Seq<Node>, c: Seq<usize>) -> bool {
    c.len() > 1 && current_list(doc, c).len() > 0 && c[c.len() - 2] > 0
}

/// The document after moving the selected node out of its parent, to just
/// after that parent.
pub open spec fn reparent_out_doc(doc: Seq<Node>, c: Seq<usize>) -> Seq<Node> {
    let q = c.drop_last().drop_last();
    let g = c[c.len() - 2];
    let gl = list_at(doc, q);
    let l = current_list(doc, c);
    update_at(
        doc,
        q,
        gl.update(g as int, with_children(gl[g as int], l.remove(c.last() as int))).insert(
            g + 1,
            l[c.last() as int],
        ),
    )
}

/// The cursor after `reparent_out`: on the moved node, one level up.
pub open spec fn reparent_out_cursor(c: Seq<usize>) -> Seq<usize> {
    c.drop_last().drop_last().push((c[c.len() - 2] + 1) as usize)
}

/// `reparent_in` applies: there is a selection with an earlier sibling.
pub open spec fn can_reparent_in(doc: Seq<Node>, c: Seq<usize>) -> bool {
    current_list(doc, c).len() > 0 && c.last() > 0
}

/// The document after moving the selected node to the end of the children of
/// its preceding sibling.
pub open spec fn reparent_in_doc(doc: Seq<Node>, c: Seq<usize>) -> Seq<Node> {
    let l = current_list(doc, c);
    let i = c.last() as int;
    let p = l[i - 1];
    update_at(doc, c.drop_last(), l.remove(i).update(i - 1, with_children(p, p.children.push(l[i]))))
}

/// The cursor after `reparent_in`: on the moved node, one level down.
pub open spec fn reparent_in_cursor(doc: Seq<Node>, c: Seq<usize>) -> Seq<usize> {
    let i = c.last() as int;
    with_last(c, (i - 1) as usize).push(current_list(doc, c)[i - 1].children.len() as usize)
}

/// The document after flipping the completion flag of the selected node.
pub open spec fn toggle_doc(doc: Seq<Node>, c: Seq<usize>) -> Seq<Node> {
    let l = current_list(doc, c);
    let n = l[c.last() as int];
    update_at(doc, c.drop_last(), l.update(c.last() as int, Node { ticked: !n.ticked, ..n }))
}

/// The document after giving the selected node the title `t`.
pub open spec fn rename_doc(doc: Seq<Node>, c: Seq<usize>, t: Seq<char>) -> Seq<Node> {
    let l = current_list(doc, c);
    let n = l[c.last() as int];
    update_at(doc, c.drop_last(), l.update(c.last() as int, Node { title: t, ..n }))
}

} // verus!
