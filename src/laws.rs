//! Properties that hold across operations of the engine.
use vstd::prelude::*;

use crate::engine::{
    can_reparent_in, can_reparent_out, current_list, cursor_ok, delete_cursor, delete_doc,
    lemma_wrap_down, lemma_wrap_up, reparent_in_cursor, reparent_in_doc, reparent_out_cursor,
    reparent_out_doc, with_last, wrap_down, wrap_up,
};
use crate::tree::{
    Node, lemma_list_at_push, lemma_update_at, lemma_update_at_same, lemma_update_at_twice,
    with_children,
};
use crate::window_state::WindowState;

verus! {

/// Moving the selection down by `n` places and then up by `n` places, on a
/// list of `len > 0` nodes, comes back to the starting index.
pub proof fn law_move_down_then_up(i: usize, n: usize, len: usize)
    requires
        i < len,
    ensures
        wrap_up(wrap_down(i, n, len), n, len) == i,
        wrap_down(wrap_up(i, n, len), n, len) == i,
{
    lemma_wrap_down(i, n, len);
    let j = wrap_down(i, n, len);
    lemma_wrap_up(j, n, len);
    lemma_wrap_up(i, n, len);
    let k = wrap_up(i, n, len);
    lemma_wrap_down(k, n, len);
}

/// Deleting the last node of a current list of `n > 0` nodes leaves the
/// cursor on index `n - 2`, or, when `n == 1`, one level up (at the top
/// level it stays at `[0]`).
pub proof fn law_delete_last_reclamps(doc: Seq<Node>, c: Seq<usize>)
    requires
        cursor_ok(doc, c),
        current_list(doc, c).len() > 0,
        c.last() == current_list(doc, c).len() - 1,
    ensures
        ({
            let n = current_list(doc, c).len();
            delete_cursor(doc, c) == if n == 1 {
                if c.len() > 1 { c.drop_last() } else { c }
            } else {
                with_last(c, (n - 2) as usize)
            }
        }),
        current_list(delete_doc(doc, c), c).len() == current_list(doc, c).len() - 1,
{
    lemma_update_at(doc, c.drop_last(), current_list(doc, c).remove(c.last() as int));
}

/// Deleting the selection and restoring it at once gives back the same
/// document and cursor and leaves the undo buffer empty; restoring a second
/// time changes nothing. This holds unless the delete re-anchored the
/// cursor: when the node was the last of a list of two or more, or the only
/// node of a list below the top level.
pub proof fn law_undo_round_trip(
    s0: &WindowState,
    s1: &WindowState,
    r1: bool,
    s2: &WindowState,
    r2: bool,
    s3: &WindowState,
    r3: bool,
)
    requires
        s0.wf(),
        WindowState::delete_step(s0, s1, r1),
        WindowState::restore_step(s1, s2, r2),
        WindowState::restore_step(s2, s3, r3),
        s0.current().len() > 0,
        s0.index() + 1 < s0.current().len() || (s0.current().len() == 1 && s0.cursor().len() == 1),
    ensures
        r1 && r2,
        s2.doc() == s0.doc(),
        s2.cursor() == s0.cursor(),
        s2.undo_slot() is None,
        !r3,
        s3.doc() == s2.doc(),
        s3.cursor() == s2.cursor(),
{
    let doc = s0.doc();
    let c = s0.cursor();
    let p = c.drop_last();
    let l = current_list(doc, c);
    let i = c.last() as int;
    lemma_update_at(doc, p, l.remove(i));
    assert(s1.cursor() == c);
    assert(l.remove(i).insert(i, l[i]) =~= l);
    lemma_update_at_twice(doc, p, l.remove(i), l);
    lemma_update_at_same(doc, p);
}

/// Moving a node into its preceding sibling and then out again puts it back
/// where it was, with the cursor on it, whenever the move out applies.
/// (The new parent's children are counted by a `usize`, as in any tree
/// held in memory.)
pub proof fn law_reparent_in_then_out(doc: Seq<Node>, c: Seq<usize>)
    requires
        cursor_ok(doc, c),
        can_reparent_in(doc, c),
        current_list(doc, c)[c.last() - 1].children.len() <= usize::MAX,
        can_reparent_out(reparent_in_doc(doc, c), reparent_in_cursor(doc, c)),
    ensures
        reparent_out_doc(reparent_in_doc(doc, c), reparent_in_cursor(doc, c)) == doc,
        reparent_out_cursor(reparent_in_cursor(doc, c)) == c,
{
    let p = c.drop_last();
    let l = current_list(doc, c);
    let i = c.last() as int;
    let x = l[i];
    let par = l[i - 1];
    let l1 = l.remove(i).update(i - 1, with_children(par, par.children.push(x)));
    let d1 = reparent_in_doc(doc, c);
    let c1 = reparent_in_cursor(doc, c);
    let m = par.children.len() as usize;
    assert(c1 == p.push((i - 1) as usize).push(m));
    assert(c1.drop_last() =~= p.push((i - 1) as usize));
    assert(c1.drop_last().drop_last() =~= p);
    assert(c1[c1.len() - 2] == i - 1);
    lemma_update_at(doc, p, l1);
    lemma_list_at_push(d1, p, (i - 1) as usize);
    assert(current_list(d1, c1) == par.children.push(x));
    assert(par.children.push(x).remove(m as int) =~= par.children);
    assert(with_children(with_children(par, par.children.push(x)), par.children) == par);
    assert(l1.update(i - 1, par).insert(i, x) =~= l);
    lemma_update_at_twice(doc, p, l1, l);
    lemma_update_at_same(doc, p);
    assert(c =~= p.push(i as usize));
}

} // verus!
