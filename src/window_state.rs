//! The editing session: the resident documents, which one is active, the
//! cursor path into it, the change flags and the one-slot undo buffer.
use vstd::prelude::*;
use vstd::string::StringSliceAdditionalSpecFns;

use crate::engine::{
    append_after_doc, append_index, current_list, cursor_ok, delete_cursor, delete_doc,
    insert_before_doc, insert_child_doc, move_sibling_doc, restore_doc, sibling_down_list,
    sibling_index, sibling_up_list, swap, toggle_doc, rename_doc, with_last,
    can_reparent_out, reparent_out_doc, reparent_out_cursor, can_reparent_in, reparent_in_doc,
    reparent_in_cursor, wrap_down, wrap_up, goto_target, lemma_wrap_down, lemma_wrap_up,
};
use crate::goto_input::{goto_request, parse_goto};
use crate::todo_list::{TodoItem, TodoList};
use crate::tree::{
    Node, leaf, list_at, list_mut, list_ref, path_fits, nodes, with_children,
    lemma_update_at, lemma_path_valid_prefix, lemma_list_at_push,
};

verus! {

broadcast use crate::todo_list::lemma_node_children;

/// The direction of a sibling move.
#[derive(Debug, Clone, Copy, PartialEq, Eq, Structural)]
pub enum Direction {
    /// Towards the start of the list.
    Up,
    /// Towards the end of the list.
    Down,
}

/// Misuse of the cursor path.
#[derive(Debug, Clone, Copy, PartialEq, Eq, Structural)]
pub enum CursorError {
    /// An index or a depth that designates nothing.
    Depth,
    /// An attempt to leave the top level.
    MinDepth,
}

/// An editing session over one or more resident documents. The cursor is
/// a path of sibling indices from the top level of the active document
/// down to the selected item.
pub struct WindowState {
    /// The active document was modified since it was last saved.
    pub changes: bool,
    /// The active document's file was removed.
    pub destructive_changes: bool,
    cur: Vec<usize>,
    loaded_lists: Vec<TodoList>,
    cur_list: usize,
    /// The last deleted item, until it is restored or replaced.
    pub history: Option<TodoItem>,
}

impl WindowState {
    /// The resident documents.
    pub closed spec fn docs(&self) -> Seq<TodoList> {
        self.loaded_lists@
    }

    /// The position of the active document among the resident ones.
    pub closed spec fn active(&self) -> int {
        self.cur_list as int
    }

    /// The cursor path.
    pub closed spec fn cursor(&self) -> Seq<usize> {
        self.cur@
    }

    /// The `changes` flag.
    pub closed spec fn changed(&self) -> bool {
        self.changes
    }

    /// The `destructive_changes` flag.
    pub closed spec fn file_removed(&self) -> bool {
        self.destructive_changes
    }

    /// The undo buffer.
    pub closed spec fn undo_slot(&self) -> Option<TodoItem> {
        self.history
    }

    /// The active document.
    pub open spec fn list(&self) -> TodoList {
        self.docs()[self.active()]
    }

    /// The top-level nodes of the active document.
    pub open spec fn doc(&self) -> Seq<Node> {
        self.list().items()
    }

    /// The list the cursor moves in.
    pub open spec fn current(&self) -> Seq<Node> {
        current_list(self.doc(), self.cursor())
    }

    /// The index of the selection in the current list.
    pub open spec fn index(&self) -> usize {
        self.cursor().last()
    }

    /// The session is consistent: the active document exists and the cursor
    /// designates a node in it (or sits at `[0]` on an empty document).
    pub open spec fn wf(&self) -> bool {
        &&& 0 <= self.active() < self.docs().len()
        &&& cursor_ok(self.doc(), self.cursor())
    }

    /// Nothing but the active document's items (and the cursor and flags)
    /// differs between `old` and `self`.
    pub open spec fn same_documents_but_items(&self, old: &Self) -> bool {
        &&& self.active() == old.active()
        &&& self.docs().len() == old.docs().len()
        &&& forall|j: int| 0 <= j < self.docs().len() && j != self.active() ==> self.docs()[j] == old.docs()[j]
        &&& self.list().name == old.list().name
        &&& self.list().path == old.list().path
    }

    /// The documents other than the active one, and which one is active,
    /// are the same in `old` and `self`.
    pub open spec fn same_other_documents(&self, old: &Self) -> bool {
        &&& self.active() == old.active()
        &&& self.docs().len() == old.docs().len()
        &&& forall|j: int| 0 <= j < self.docs().len() && j != self.active() ==> self.docs()[j] == old.docs()[j]
    }

    /// What `delete_current` does, taking `old` to `new` and returning `r`:
    /// on a non-empty current list it removes the selection into the undo
    /// buffer and re-anchors the cursor; otherwise nothing changes.
    pub open spec fn delete_step(old: &Self, new: &Self, r: bool) -> bool {
        &&& new.same_documents_but_items(old)
        &&& r == (old.current().len() > 0)
        &&& r ==> new.doc() == delete_doc(old.doc(), old.cursor())
        &&& r ==> new.cursor() == delete_cursor(old.doc(), old.cursor())
        &&& r ==> new.undo_slot() is Some
        &&& r ==> new.undo_slot()->0.node() == old.current()[old.index() as int]
        &&& r ==> new.changed()
        &&& !r ==> *new == *old
        &&& new.file_removed() == old.file_removed()
    }

    /// What `restore_from_history` does, taking `old` to `new` and returning
    /// `r`: a buffered node is inserted at the selection; the buffer ends up
    /// empty either way.
    pub open spec fn restore_step(old: &Self, new: &Self, r: bool) -> bool {
        &&& new.same_documents_but_items(old)
        &&& r == (old.undo_slot() is Some)
        &&& r ==> new.doc() == restore_doc(old.doc(), old.cursor(), old.undo_slot()->0.node())
        &&& !r ==> new.doc() == old.doc()
        &&& new.cursor() == old.cursor()
        &&& new.undo_slot() is None
        &&& new.changed() == (old.changed() || r)
        &&& new.file_removed() == old.file_removed()
    }

    /// A session on one document, with the cursor on its first item.
    pub fn new(list: TodoList) -> (r: Self)
        ensures
            r.wf(),
            r.docs() == seq![list],
            r.active() == 0,
            r.cursor() == seq![0usize],
            !r.changed(),
            !r.file_removed(),
            r.undo_slot() is None,
    {
        let r = WindowState {
            changes: false,
            destructive_changes: false,
            cur: vec![0],
            loaded_lists: vec![list],
            cur_list: 0,
            history: None,
        };
        assert(r.cur@.drop_last() =~= Seq::<usize>::empty());
        assert(r.loaded_lists@ =~= seq![list]);
        r
    }

    /// Removes the selected node into the undo buffer and re-anchors the
    /// cursor. Returns whether there was a node to remove.
    pub fn delete_current(&mut self) -> (r: bool)
        requires
            old(self).wf(),
        ensures
            final(self).wf(),
            Self::delete_step(old(self), final(self), r),
    {
        let end = self.cur.len() - 1;
        let i = self.cur[end];
        let ghost c = self.cur@;
        let ghost doc = self.doc();
        assert(c.subrange(0, end as int) =~= c.drop_last());
        if list_ref(&self.loaded_lists[self.cur_list].contents, &self.cur, 0, end).len() == 0 {
            return false;
        }
        let list = list_mut(&mut self.loaded_lists[self.cur_list].contents, &self.cur, 0, end);
        let removed = list.remove(i);
        let new_len = list.len();
        assert(nodes(list@) =~= current_list(doc, c).remove(i as int));
        self.history = Some(removed);
        self.changes = true;
        proof {
            lemma_update_at(doc, c.drop_last(), current_list(doc, c).remove(i as int));
        }
        if i >= new_len {
            if new_len == 0 {
                if end > 0 {
                    self.cur.pop();
                    proof {
                        lemma_path_valid_prefix(self.doc(), c.drop_last());
                        assert(self.cur@ =~= c.drop_last());
                    }
                }
            } else {
                self.cur.set(end, new_len - 1);
                assert(self.cur@.drop_last() =~= c.drop_last());
                assert(self.cur@ =~= with_last(c, (new_len - 1) as usize));
            }
        }
        true
    }

    /// Inserts a new node titled `title` at the selection; the cursor stays
    /// on the new node.
    pub fn insert_before(&mut self, title: String)
        requires
            old(self).wf(),
        ensures
            final(self).wf(),
            final(self).same_documents_but_items(old(self)),
            final(self).doc() == insert_before_doc(old(self).doc(), old(self).cursor(), title@),
            final(self).cursor() == old(self).cursor(),
            final(self).changed(),
            final(self).file_removed() == old(self).file_removed(),
            final(self).undo_slot() == old(self).undo_slot(),
    {
        let end = self.cur.len() - 1;
        let i = self.cur[end];
        let ghost c = self.cur@;
        let ghost doc = self.doc();
        assert(c.subrange(0, end as int) =~= c.drop_last());
        let list = list_mut(&mut self.loaded_lists[self.cur_list].contents, &self.cur, 0, end);
        let item = TodoItem::create(title);
        list.insert(i, item);
        assert(nodes(list@) =~= current_list(doc, c).insert(i as int, leaf(title@)));
        self.changes = true;
        proof {
            lemma_update_at(doc, c.drop_last(), current_list(doc, c).insert(i as int, leaf(title@)));
        }
    }

    /// Inserts a new node titled `title` just after the selection (at the
    /// end of an empty list) and moves the cursor onto it.
    pub fn append_after(&mut self, title: String)
        requires
            old(self).wf(),
        ensures
            final(self).wf(),
            final(self).same_documents_but_items(old(self)),
            final(self).doc() == append_after_doc(old(self).doc(), old(self).cursor(), title@),
            final(self).cursor() == with_last(old(self).cursor(), append_index(old(self).doc(), old(self).cursor())),
            final(self).changed(),
            final(self).file_removed() == old(self).file_removed(),
            final(self).undo_slot() == old(self).undo_slot(),
    {
        let end = self.cur.len() - 1;
        let i = self.cur[end];
        let ghost c = self.cur@;
        let ghost doc = self.doc();
        assert(c.subrange(0, end as int) =~= c.drop_last());
        let list = list_mut(&mut self.loaded_lists[self.cur_list].contents, &self.cur, 0, end);
        let len = list.len();
        let j = if i < len { i + 1 } else { i };
        let item = TodoItem::create(title);
        list.insert(j, item);
        assert(nodes(list@) =~= current_list(doc, c).insert(j as int, leaf(title@)));
        self.changes = true;
        self.cur.set(end, j);
        proof {
            lemma_update_at(doc, c.drop_last(), current_list(doc, c).insert(j as int, leaf(title@)));
            assert(self.cur@.drop_last() =~= c.drop_last());
            assert(self.cur@ =~= with_last(c, j));
        }
    }

    /// Gives the selected node a new last child titled `title` and moves the
    /// cursor onto it. Returns false, changing nothing, when the current list
    /// is empty.
    pub fn insert_child(&mut self, title: String) -> (r: bool)
        requires
            old(self).wf(),
        ensures
            final(self).wf(),
            final(self).same_documents_but_items(old(self)),
            r == (old(self).current().len() > 0),
            r ==> final(self).doc() == insert_child_doc(old(self).doc(), old(self).cursor(), title@),
            r ==> final(self).cursor() == old(self).cursor().push(
                old(self).current()[old(self).index() as int].children.len() as usize,
            ),
            r ==> final(self).changed(),
            !r ==> *final(self) == *old(self),
            final(self).file_removed() == old(self).file_removed(),
            final(self).undo_slot() == old(self).undo_slot(),
    {
        let end = self.cur.len() - 1;
        let i = self.cur[end];
        let ghost c = self.cur@;
        let ghost doc = self.doc();
        assert(c.subrange(0, end as int) =~= c.drop_last());
        if list_ref(&self.loaded_lists[self.cur_list].contents, &self.cur, 0, end).len() == 0 {
            return false;
        }
        let list = list_mut(&mut self.loaded_lists[self.cur_list].contents, &self.cur, 0, end);
        let ghost l = current_list(doc, c);
        let mut item = list.remove(i);
        let k = item.contents.len();
        item.contents.push(TodoItem::create(title));
        assert(item.node().children =~= l[i as int].children.push(leaf(title@)));
        list.insert(i, item);
        let ghost nl = l.update(i as int, with_children(l[i as int], l[i as int].children.push(leaf(title@))));
        assert(nodes(list@) =~= nl);
        self.changes = true;
        self.cur.push(k);
        proof {
            lemma_update_at(doc, c.drop_last(), nl);
            lemma_list_at_push(self.doc(), c.drop_last(), i);
            assert(c =~= c.drop_last().push(i));
            assert(self.cur@.drop_last() =~= c);
        }
        true
    }

    /// Puts the buffered node back at the selection and empties the buffer.
    /// Returns whether the buffer held a node.
    pub fn restore_from_history(&mut self) -> (r: bool)
        requires
            old(self).wf(),
        ensures
            final(self).wf(),
            Self::restore_step(old(self), final(self), r),
    {
        let mut slot: Option<TodoItem> = None;
        std::mem::swap(&mut self.history, &mut slot);
        match slot {
            None => false,
            Some(item) => {
                let end = self.cur.len() - 1;
                let i = self.cur[end];
                let ghost c = self.cur@;
                let ghost doc = self.doc();
                let ghost x = item.node();
                assert(c.subrange(0, end as int) =~= c.drop_last());
                let list = list_mut(&mut self.loaded_lists[self.cur_list].contents, &self.cur, 0, end);
                list.insert(i, item);
                assert(nodes(list@) =~= current_list(doc, c).insert(i as int, x));
                self.changes = true;
                proof {
                    lemma_update_at(doc, c.drop_last(), current_list(doc, c).insert(i as int, x));
                }
                true
            },
        }
    }

    /// Swaps the selected node with its neighbour in direction `dir`; at the
    /// first (moving up) or last (moving down) place it rotates to the other
    /// end. The cursor follows the node. Returns false, changing nothing,
    /// on a list of fewer than two nodes.
    pub fn move_sibling(&mut self, dir: Direction) -> (r: bool)
        requires
            old(self).wf(),
        ensures
            final(self).wf(),
            final(self).same_documents_but_items(old(self)),
            r == (old(self).current().len() > 1),
            r ==> final(self).doc() == move_sibling_doc(old(self).doc(), old(self).cursor(), dir == Direction::Up),
            r ==> final(self).cursor() == with_last(
                old(self).cursor(),
                sibling_index(old(self).current().len() as usize, old(self).index(), dir == Direction::Up),
            ),
            r ==> final(self).changed(),
            !r ==> *final(self) == *old(self),
            final(self).file_removed() == old(self).file_removed(),
            final(self).undo_slot() == old(self).undo_slot(),
    {
        let end = self.cur.len() - 1;
        let i = self.cur[end];
        let ghost c = self.cur@;
        let ghost doc = self.doc();
        assert(c.subrange(0, end as int) =~= c.drop_last());
        let len = list_ref(&self.loaded_lists[self.cur_list].contents, &self.cur, 0, end).len();
        if len <= 1 {
            return false;
        }
        let list = list_mut(&mut self.loaded_lists[self.cur_list].contents, &self.cur, 0, end);
        let ghost l = current_list(doc, c);
        let j;
        match dir {
            Direction::Up => {
                if i > 0 {
                    let x = list.remove(i);
                    list.insert(i - 1, x);
                    j = i - 1;
                    assert(nodes(list@) =~= swap(l, i - 1, i as int));
                } else {
                    let x = list.remove(0);
                    list.push(x);
                    j = len - 1;
                    assert(nodes(list@) =~= l.drop_first().push(l[0]));
                }
                assert(nodes(list@) == sibling_up_list(l, i));
            },
            Direction::Down => {
                if i + 1 < len {
                    let x = list.remove(i);
                    list.insert(i + 1, x);
                    j = i + 1;
                    assert(nodes(list@) =~= swap(l, i as int, i + 1));
                } else {
                    let x = list.remove(i);
                    list.insert(0, x);
                    j = 0;
                    assert(nodes(list@) =~= seq![l.last()] + l.drop_last());
                }
                assert(nodes(list@) == sibling_down_list(l, i));
            },
        }
        self.changes = true;
        self.cur.set(end, j);
        proof {
            lemma_update_at(doc, c.drop_last(), nodes(list@));
            assert(self.cur@.drop_last() =~= c.drop_last());
            assert(self.cur@ =~= with_last(c, j));
        }
        true
    }

    /// Flips the completion flag of the selected node. Returns false,
    /// changing nothing, when the current list is empty.
    pub fn toggle(&mut self) -> (r: bool)
        requires
            old(self).wf(),
        ensures
            final(self).wf(),
            final(self).same_documents_but_items(old(self)),
            r == (old(self).current().len() > 0),
            r ==> final(self).doc() == toggle_doc(old(self).doc(), old(self).cursor()),
            r ==> final(self).changed(),
            !r ==> *final(self) == *old(self),
            final(self).cursor() == old(self).cursor(),
            final(self).file_removed() == old(self).file_removed(),
            final(self).undo_slot() == old(self).undo_slot(),
    {
        let end = self.cur.len() - 1;
        let i = self.cur[end];
        let ghost c = self.cur@;
        let ghost doc = self.doc();
        assert(c.subrange(0, end as int) =~= c.drop_last());
        if list_ref(&self.loaded_lists[self.cur_list].contents, &self.cur, 0, end).len() == 0 {
            return false;
        }
        let list = list_mut(&mut self.loaded_lists[self.cur_list].contents, &self.cur, 0, end);
        let ghost l = current_list(doc, c);
        let mut item = list.remove(i);
        item.ticked_off = !item.ticked_off;
        list.insert(i, item);
        let ghost nl = l.update(i as int, Node { ticked: !l[i as int].ticked, ..l[i as int] });
        assert(nodes(list@) =~= nl);
        self.changes = true;
        proof {
            lemma_update_at(doc, c.drop_last(), nl);
        }
        true
    }

    /// Replaces the title of the selected node. Returns false, changing
    /// nothing, when the current list is empty.
    pub fn rename(&mut self, title: String) -> (r: bool)
        requires
            old(self).wf(),
        ensures
            final(self).wf(),
            final(self).same_documents_but_items(old(self)),
            r == (old(self).current().len() > 0),
            r ==> final(self).doc() == rename_doc(old(self).doc(), old(self).cursor(), title@),
            r ==> final(self).changed(),
            !r ==> *final(self) == *old(self),
            final(self).cursor() == old(self).cursor(),
            final(self).file_removed() == old(self).file_removed(),
            final(self).undo_slot() == old(self).undo_slot(),
    {
        let end = self.cur.len() - 1;
        let i = self.cur[end];
        let ghost c = self.cur@;
        let ghost doc = self.doc();
        assert(c.subrange(0, end as int) =~= c.drop_last());
        if list_ref(&self.loaded_lists[self.cur_list].contents, &self.cur, 0, end).len() == 0 {
            return false;
        }
        let list = list_mut(&mut self.loaded_lists[self.cur_list].contents, &self.cur, 0, end);
        let ghost l = current_list(doc, c);
        let mut item = list.remove(i);
        item.title = title;
        list.insert(i, item);
        let ghost nl = l.update(i as int, Node { title: title@, ..l[i as int] });
        assert(nodes(list@) =~= nl);
        self.changes = true;
        proof {
            lemma_update_at(doc, c.drop_last(), nl);
        }
        true
    }

    /// Moves the selected node out of its parent, to just after that parent
    /// in the list one level up, and follows it there. Applies only below
    /// the top level when the parent has an earlier sibling; otherwise
    /// changes nothing and returns false.
    pub fn reparent_out(&mut self) -> (r: bool)
        requires
            old(self).wf(),
        ensures
            final(self).wf(),
            final(self).same_documents_but_items(old(self)),
            r == can_reparent_out(old(self).doc(), old(self).cursor()),
            r ==> final(self).doc() == reparent_out_doc(old(self).doc(), old(self).cursor()),
            r ==> final(self).cursor() == reparent_out_cursor(old(self).cursor()),
            r ==> final(self).changed(),
            !r ==> *final(self) == *old(self),
            final(self).file_removed() == old(self).file_removed(),
            final(self).undo_slot() == old(self).undo_slot(),
    {
        let end = self.cur.len() - 1;
        let i = self.cur[end];
        let ghost c = self.cur@;
        let ghost doc = self.doc();
        assert(c.subrange(0, end as int) =~= c.drop_last());
        if end == 0 || self.cur[end - 1] == 0 {
            return false;
        }
        if list_ref(&self.loaded_lists[self.cur_list].contents, &self.cur, 0, end).len() == 0 {
            return false;
        }
        let g = self.cur[end - 1];
        let ghost p = c.drop_last();
        let ghost q = p.drop_last();
        proof {
            lemma_path_valid_prefix(doc, p);
            assert(c.subrange(0, end - 1) =~= q);
            assert(p.last() == g);
        }
        let ghost gl = list_at(doc, q);
        let ghost l = current_list(doc, c);
        let glist = list_mut(&mut self.loaded_lists[self.cur_list].contents, &self.cur, 0, end - 1);
        let glen = glist.len();
        assert(g < glen);
        let mut parent = glist.remove(g);
        let x = parent.contents.remove(i);
        let ghost xn = x.node();
        assert(parent.node().children =~= l.remove(i as int));
        glist.insert(g, parent);
        glist.insert(g + 1, x);
        let ghost ngl = gl.update(g as int, with_children(gl[g as int], l.remove(i as int))).insert(g + 1, l[i as int]);
        assert(nodes(glist@) =~= ngl);
        self.changes = true;
        self.cur.pop();
        self.cur.set(end - 1, g + 1);
        proof {
            lemma_update_at(doc, q, ngl);
            assert(self.cur@.drop_last() =~= q);
            assert(self.cur@ =~= q.push((g + 1) as usize));
        }
        true
    }

    /// Moves the selected node to the end of the children of its preceding
    /// sibling and follows it there. Applies only when the selection has an
    /// earlier sibling; otherwise changes nothing and returns false.
    pub fn reparent_in(&mut self) -> (r: bool)
        requires
            old(self).wf(),
        ensures
            final(self).wf(),
            final(self).same_documents_but_items(old(self)),
            r == can_reparent_in(old(self).doc(), old(self).cursor()),
            r ==> final(self).doc() == reparent_in_doc(old(self).doc(), old(self).cursor()),
            r ==> final(self).cursor() == reparent_in_cursor(old(self).doc(), old(self).cursor()),
            r ==> final(self).changed(),
            !r ==> *final(self) == *old(self),
            final(self).file_removed() == old(self).file_removed(),
            final(self).undo_slot() == old(self).undo_slot(),
    {
        let end = self.cur.len() - 1;
        let i = self.cur[end];
        let ghost c = self.cur@;
        let ghost doc = self.doc();
        assert(c.subrange(0, end as int) =~= c.drop_last());
        if i == 0 || list_ref(&self.loaded_lists[self.cur_list].contents, &self.cur, 0, end).len() == 0 {
            return false;
        }
        let list = list_mut(&mut self.loaded_lists[self.cur_list].contents, &self.cur, 0, end);
        let ghost l = current_list(doc, c);
        let x = list.remove(i);
        let mut parent = list.remove(i - 1);
        let m = parent.contents.len();
        parent.contents.push(x);
        assert(parent.node().children =~= l[i - 1].children.push(l[i as int]));
        list.insert(i - 1, parent);
        let ghost nl = l.remove(i as int).update(i - 1, with_children(l[i - 1], l[i - 1].children.push(l[i as int])));
        assert(nodes(list@) =~= nl);
        self.changes = true;
        self.cur.set(end, i - 1);
        self.cur.push(m);
        proof {
            let p = c.drop_last();
            lemma_update_at(doc, p, nl);
            lemma_list_at_push(self.doc(), p, (i - 1) as usize);
            assert(self.cur@.drop_last() =~= p.push((i - 1) as usize));
            assert(self.cur@ =~= with_last(c, (i - 1) as usize).push(m));
        }
        true
    }

    /// The depth of the cursor: the number of entries of its path.
    pub fn cur_depth(&self) -> (r: usize)
        ensures
            r == self.cursor().len(),
    {
        self.cur.len()
    }

    /// Puts the cursor back on the first top-level item.
    pub fn reset_cur(&mut self)
        requires
            old(self).wf(),
        ensures
            final(self).wf(),
            final(self).cursor() == seq![0usize],
            final(self).docs() == old(self).docs(),
            final(self).active() == old(self).active(),
            final(self).changed() == old(self).changed(),
            final(self).file_removed() == old(self).file_removed(),
            final(self).undo_slot() == old(self).undo_slot(),
    {
        self.cur.clear();
        self.cur.push(0);
        assert(self.cur@ =~= seq![0usize]);
        assert(self.cur@.drop_last() =~= Seq::<usize>::empty());
    }

    /// The list the cursor moves in.
    pub fn cur_parent_list(&self) -> (r: &Vec<TodoItem>)
        requires
            self.wf(),
        ensures
            nodes(r@) == self.current(),
    {
        let end = self.cur.len() - 1;
        assert(self.cur@.subrange(0, end as int) =~= self.cur@.drop_last());
        list_ref(&self.loaded_lists[self.cur_list].contents, &self.cur, 0, end)
    }

    /// The selected item; `Depth` when the current list is empty.
    pub fn cur_item(&self) -> (r: Result<&TodoItem, CursorError>)
        requires
            self.wf(),
        ensures
            self.current().len() > 0 <==> r is Ok,
            r is Ok ==> r->Ok_0.node() == self.current()[self.index() as int],
            r is Err ==> r->Err_0 == CursorError::Depth,
    {
        let list = self.cur_parent_list();
        let i = self.cur[self.cur.len() - 1];
        if list.len() == 0 {
            Err(CursorError::Depth)
        } else {
            Ok(&list[i])
        }
    }

    /// Moves the selection `amount` places down, wrapping around the end of
    /// the current list; nothing happens on an empty list.
    pub fn move_cur_down(&mut self, amount: usize)
        requires
            old(self).wf(),
        ensures
            final(self).wf(),
            old(self).current().len() > 0 ==> final(self).cursor() == with_last(
                old(self).cursor(),
                wrap_down(old(self).index(), amount, old(self).current().len() as usize),
            ),
            old(self).current().len() == 0 ==> final(self).cursor() == old(self).cursor(),
            final(self).docs() == old(self).docs(),
            final(self).active() == old(self).active(),
            final(self).changed() == old(self).changed(),
            final(self).file_removed() == old(self).file_removed(),
            final(self).undo_slot() == old(self).undo_slot(),
    {
        let len = self.cur_parent_list().len();
        if len > 0 {
            let end = self.cur.len() - 1;
            let i = self.cur[end];
            let m = amount % len;
            let j = if m < len - i { i + m } else { i - (len - m) };
            proof { lemma_wrap_down(i, amount, len); }
            self.cur.set(end, j);
            assert(self.cur@ =~= with_last(old(self).cursor(), j));
            assert(self.cur@.drop_last() =~= old(self).cursor().drop_last());
        }
    }

    /// Moves the selection `amount` places up, wrapping around the start of
    /// the current list; nothing happens on an empty list.
    pub fn move_cur_up(&mut self, amount: usize)
        requires
            old(self).wf(),
        ensures
            final(self).wf(),
            old(self).current().len() > 0 ==> final(self).cursor() == with_last(
                old(self).cursor(),
                wrap_up(old(self).index(), amount, old(self).current().len() as usize),
            ),
            old(self).current().len() == 0 ==> final(self).cursor() == old(self).cursor(),
            final(self).docs() == old(self).docs(),
            final(self).active() == old(self).active(),
            final(self).changed() == old(self).changed(),
            final(self).file_removed() == old(self).file_removed(),
            final(self).undo_slot() == old(self).undo_slot(),
    {
        let len = self.cur_parent_list().len();
        if len > 0 {
            let end = self.cur.len() - 1;
            let i = self.cur[end];
            let m = amount % len;
            let j = if i >= m { i - m } else { i + (len - m) };
            proof { lemma_wrap_up(i, amount, len); }
            self.cur.set(end, j);
            assert(self.cur@ =~= with_last(old(self).cursor(), j));
            assert(self.cur@.drop_last() =~= old(self).cursor().drop_last());
        }
    }

    /// Selects the `num`-th node (1-based) of the current list, counted from
    /// the end when `from_end`. A position that names no node changes
    /// nothing and returns false.
    pub fn goto_index(&mut self, num: usize, from_end: bool) -> (r: bool)
        requires
            old(self).wf(),
        ensures
            final(self).wf(),
            r == (goto_target(num, from_end, old(self).current().len() as usize) is Some),
            r ==> final(self).cursor() == with_last(
                old(self).cursor(),
                goto_target(num, from_end, old(self).current().len() as usize)->0,
            ),
            !r ==> final(self).cursor() == old(self).cursor(),
            final(self).docs() == old(self).docs(),
            final(self).active() == old(self).active(),
            final(self).changed() == old(self).changed(),
            final(self).file_removed() == old(self).file_removed(),
            final(self).undo_slot() == old(self).undo_slot(),
    {
        let len = self.cur_parent_list().len();
        if num == 0 || num > len {
            return false;
        }
        let j = if from_end { len - num } else { num - 1 };
        let end = self.cur.len() - 1;
        self.cur.set(end, j);
        assert(self.cur@ =~= with_last(old(self).cursor(), j));
        assert(self.cur@.drop_last() =~= old(self).cursor().drop_last());
        true
    }

    /// Selects the position typed at the "go to" prompt: a 1-based number,
    /// counted from the end when the text starts with `-`. Text that is no
    /// number, or a position that names no node, changes nothing and
    /// returns false.
    pub fn goto(&mut self, text: &str) -> (r: bool)
        requires
            old(self).wf(),
        ensures
            final(self).wf(),
            goto_request(text.spec_bytes()) is None ==> !r && final(self).cursor() == old(self).cursor(),
            goto_request(text.spec_bytes()) matches Some((num, from_end)) ==> {
                let t = goto_target(num, from_end, old(self).current().len() as usize);
                &&& r == (t is Some)
                &&& r ==> final(self).cursor() == with_last(old(self).cursor(), t->0)
                &&& !r ==> final(self).cursor() == old(self).cursor()
            },
            final(self).docs() == old(self).docs(),
            final(self).active() == old(self).active(),
            final(self).changed() == old(self).changed(),
            final(self).file_removed() == old(self).file_removed(),
            final(self).undo_slot() == old(self).undo_slot(),
    {
        match parse_goto(text) {
            Some((num, from_end)) => self.goto_index(num, from_end),
            None => false,
        }
    }

    /// Leaves the current level: removes and returns the deepest cursor
    /// entry. At the top level it fails with `MinDepth` and changes nothing.
    pub fn pop_cur(&mut self) -> (r: Result<usize, CursorError>)
        requires
            old(self).wf(),
        ensures
            final(self).wf(),
            old(self).cursor().len() > 1 <==> r is Ok,
            r is Ok ==> r->Ok_0 == old(self).index() && final(self).cursor() == old(self).cursor().drop_last(),
            r is Err ==> r->Err_0 == CursorError::MinDepth && final(self).cursor() == old(self).cursor(),
            final(self).docs() == old(self).docs(),
            final(self).active() == old(self).active(),
            final(self).changed() == old(self).changed(),
            final(self).file_removed() == old(self).file_removed(),
            final(self).undo_slot() == old(self).undo_slot(),
    {
        if self.cur.len() <= 1 {
            return Err(CursorError::MinDepth);
        }
        let ghost c = self.cur@;
        proof { lemma_path_valid_prefix(self.doc(), c.drop_last()); }
        let last = self.cur.pop();
        assert(self.cur@ =~= c.drop_last());
        match last {
            Some(v) => Ok(v),
            None => Err(CursorError::MinDepth),
        }
    }

    /// Enters the children of the selected node, selecting the child at
    /// `new`. Fails with `Depth`, changing nothing, when there is no such
    /// child.
    pub fn push_cur(&mut self, new: usize) -> (r: Result<(), CursorError>)
        requires
            old(self).wf(),
        ensures
            final(self).wf(),
            r is Ok <==> (old(self).current().len() > 0
                && new < old(self).current()[old(self).index() as int].children.len()),
            r is Ok ==> final(self).cursor() == old(self).cursor().push(new),
            r is Err ==> r->Err_0 == CursorError::Depth && final(self).cursor() == old(self).cursor(),
            final(self).docs() == old(self).docs(),
            final(self).active() == old(self).active(),
            final(self).changed() == old(self).changed(),
            final(self).file_removed() == old(self).file_removed(),
            final(self).undo_slot() == old(self).undo_slot(),
    {
        let ghost c = self.cur@;
        let n = match self.cur_item() {
            Ok(item) => {
                item.contents.len()
            },
            Err(e) => { return Err(e); },
        };
        if new >= n {
            return Err(CursorError::Depth);
        }
        self.cur.push(new);
        proof {
            let i = c.last();
            lemma_list_at_push(self.doc(), c.drop_last(), i);
            assert(c =~= c.drop_last().push(i));
            assert(self.cur@.drop_last() =~= c);
        }
        Ok(())
    }

    /// The cursor entry at `depth`; `Depth` when the path is not that deep.
    pub fn cur(&self, depth: usize) -> (r: Result<usize, CursorError>)
        ensures
            depth < self.cursor().len() <==> r is Ok,
            r is Ok ==> r->Ok_0 == self.cursor()[depth as int],
            r is Err ==> r->Err_0 == CursorError::Depth,
    {
        if depth >= self.cur.len() {
            Err(CursorError::Depth)
        } else {
            Ok(self.cur[depth])
        }
    }

    /// The cursor path.
    pub fn cursor_path(&self) -> (r: &Vec<usize>)
        ensures
            r@ == self.cursor(),
    {
        &self.cur
    }

    /// The deepest cursor entry: the index of the selection.
    pub fn last_cur(&self) -> (r: usize)
        requires
            self.wf(),
        ensures
            r == self.index(),
    {
        self.cur[self.cur.len() - 1]
    }

    /// The top-level cursor entry.
    pub fn first_cur(&self) -> (r: usize)
        requires
            self.wf(),
        ensures
            r == self.cursor()[0],
    {
        self.cur[0]
    }

    /// Replaces the cursor by `[0] + values`. Fails with `Depth`, changing
    /// nothing, when that path designates no node.
    pub fn set_cur(&mut self, values: &[usize]) -> (r: Result<(), CursorError>)
        requires
            old(self).wf(),
        ensures
            final(self).wf(),
            r is Ok <==> cursor_ok(old(self).doc(), seq![0usize] + values@),
            r is Ok ==> final(self).cursor() == seq![0usize] + values@,
            r is Err ==> r->Err_0 == CursorError::Depth && final(self).cursor() == old(self).cursor(),
            final(self).docs() == old(self).docs(),
            final(self).active() == old(self).active(),
            final(self).changed() == old(self).changed(),
            final(self).file_removed() == old(self).file_removed(),
            final(self).undo_slot() == old(self).undo_slot(),
    {
        let mut cand: Vec<usize> = Vec::new();
        cand.push(0);
        let mut j: usize = 0;
        while j < values.len()
            invariant
                j <= values@.len(),
                cand@ == seq![0usize] + values@.subrange(0, j as int),
            decreases values@.len() - j,
        {
            cand.push(values[j]);
            j = j + 1;
            assert(cand@ =~= seq![0usize] + values@.subrange(0, j as int));
        }
        assert(cand@ =~= seq![0usize] + values@);
        let end = cand.len() - 1;
        assert(cand@.subrange(0, end as int) =~= cand@.drop_last());
        let root = &self.loaded_lists[self.cur_list].contents;
        if !path_fits(root, &cand, 0, end) {
            return Err(CursorError::Depth);
        }
        let l = list_ref(root, &cand, 0, end);
        if cand[end] < l.len() || (end == 0 && root.len() == 0) {
            self.cur = cand;
            Ok(())
        } else {
            Err(CursorError::Depth)
        }
    }

    /// Activates the resident document stored at the same path as `list`,
    /// or else makes `list` resident and active. Either way the cursor goes
    /// back to `[0]`, both flags are cleared and the undo buffer is emptied.
    pub fn switch_list(&mut self, list: TodoList)
        requires
            old(self).wf(),
        ensures
            final(self).wf(),
            (exists|j: int| 0 <= j < old(self).docs().len() && old(self).docs()[j].path@ == list.path@) ==> {
                &&& final(self).docs() == old(self).docs()
                &&& final(self).list().path@ == list.path@
                &&& forall|j: int| 0 <= j < final(self).active() ==> old(self).docs()[j].path@ != list.path@
            },
            (forall|j: int| 0 <= j < old(self).docs().len() ==> old(self).docs()[j].path@ != list.path@) ==> {
                &&& final(self).docs() == old(self).docs().push(list)
                &&& final(self).active() == old(self).docs().len()
            },
            final(self).cursor() == seq![0usize],
            !final(self).changed(),
            !final(self).file_removed(),
            final(self).undo_slot() is None,
    {
        let n = self.loaded_lists.len();
        let mut j: usize = 0;
        let mut found = false;
        while j < n
            invariant_except_break
                !found,
            invariant
                n == self.loaded_lists@.len(),
                self.loaded_lists@ == old(self).loaded_lists@,
                j <= n,
                forall|k: int| 0 <= k < j ==> self.loaded_lists@[k].path@ != list.path@,
            ensures
                found ==> j < n && self.loaded_lists@[j as int].path@ == list.path@,
                !found ==> j == n,
            decreases n - j,
        {
            if self.loaded_lists[j].path == list.path {
                found = true;
                break;
            }
            j = j + 1;
        }
        self.history = None;
        self.changes = false;
        self.destructive_changes = false;
        if found {
            self.cur_list = j;
        } else {
            self.cur_list = n;
            self.loaded_lists.push(list);
        }
        self.cur.clear();
        self.cur.push(0);
        assert(self.cur@ =~= seq![0usize]);
        assert(self.cur@.drop_last() =~= Seq::<usize>::empty());
    }

    /// Replaces the items of the active document by those of `list`, a fresh
    /// read of its file; name and path stay. The cursor goes back to `[0]`,
    /// since the old path may designate nothing in the new items.
    pub fn reload_list(&mut self, list: TodoList)
        requires
            old(self).wf(),
        ensures
            final(self).wf(),
            final(self).same_documents_but_items(old(self)),
            final(self).doc() == list.items(),
            final(self).list().contents == list.contents,
            final(self).cursor() == seq![0usize],
            final(self).changed() == old(self).changed(),
            final(self).file_removed() == old(self).file_removed(),
            final(self).undo_slot() == old(self).undo_slot(),
    {
        self.loaded_lists[self.cur_list].contents = list.contents;
        self.cur.clear();
        self.cur.push(0);
        assert(self.cur@ =~= seq![0usize]);
        assert(self.cur@.drop_last() =~= Seq::<usize>::empty());
    }

    /// The active document.
    pub fn cur_loaded_list(&self) -> (r: &TodoList)
        requires
            self.wf(),
        ensures
            *r == self.list(),
    {
        &self.loaded_lists[self.cur_list]
    }

    /// Whether the active document has any item.
    pub fn has_items(&self) -> (r: bool)
        requires
            self.wf(),
        ensures
            r == (self.doc().len() > 0),
    {
        self.loaded_lists[self.cur_list].contents.len() > 0
    }

    /// Renames the active document.
    pub fn set_list_name(&mut self, name: String)
        requires
            old(self).wf(),
        ensures
            final(self).wf(),
            final(self).same_other_documents(old(self)),
            final(self).list().name == name,
            final(self).list().path == old(self).list().path,
            final(self).list().contents == old(self).list().contents,
            final(self).cursor() == old(self).cursor(),
            final(self).changed(),
            final(self).file_removed() == old(self).file_removed(),
            final(self).undo_slot() == old(self).undo_slot(),
    {
        self.loaded_lists[self.cur_list].name = name;
        self.changes = true;
    }

    /// Points the active document at another file, for a later save.
    pub fn set_list_path(&mut self, path: String)
        requires
            old(self).wf(),
        ensures
            final(self).wf(),
            final(self).same_other_documents(old(self)),
            final(self).list().path == path,
            final(self).list().name == old(self).list().name,
            final(self).list().contents == old(self).list().contents,
            final(self).cursor() == old(self).cursor(),
            final(self).changed() == old(self).changed(),
            final(self).file_removed() == old(self).file_removed(),
            final(self).undo_slot() == old(self).undo_slot(),
    {
        self.loaded_lists[self.cur_list].path = path;
    }

    /// Records that the active document was written to its file.
    pub fn mark_saved(&mut self)
        ensures
            final(self).docs() == old(self).docs(),
            final(self).active() == old(self).active(),
            final(self).cursor() == old(self).cursor(),
            !final(self).changed(),
            !final(self).file_removed(),
            final(self).undo_slot() == old(self).undo_slot(),
    {
        self.changes = false;
        self.destructive_changes = false;
    }

    /// Records that the active document's file was removed; the items stay
    /// in memory until the document is saved again or left.
    pub fn mark_file_removed(&mut self)
        ensures
            final(self).docs() == old(self).docs(),
            final(self).active() == old(self).active(),
            final(self).cursor() == old(self).cursor(),
            final(self).changed(),
            final(self).file_removed(),
            final(self).undo_slot() == old(self).undo_slot(),
    {
        self.changes = true;
        self.destructive_changes = true;
    }
}

} // verus!
