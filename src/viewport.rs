//! What the screen shows: the rows of the outline, expanded along the
//! cursor path, the scroll offset that keeps the selection in view, and the
//! progress figures of the header.
//!
//! A node on the cursor path shows its children, one row each, except the
//! child that lies on the path further down, which is expanded the same way.
//! Every other node takes a single row.
use vstd::prelude::*;

use crate::todo_list::TodoItem;
use crate::tree::{Node, nodes};
use crate::window_state::WindowState;

verus! {

broadcast use crate::todo_list::lemma_node_children;

/// One screen row as a mathematical value.
pub ghost struct Row {
    pub depth: nat,
    pub ticked: bool,
    pub title: Seq<char>,
    pub selected: bool,
}

/// One screen row: an item at some depth, and whether it is the selection.
pub struct Line {
    pub depth: usize,
    pub ticked: bool,
    pub title: String,
    pub selected: bool,
}

impl Line {
    /// The row this line shows.
    pub open spec fn row(&self) -> Row {
        Row { depth: self.depth as nat, ticked: self.ticked, title: self.title@, selected: self.selected }
    }
}

/// The rows of a sequence of lines.
pub open spec fn rows_of(s: Seq<Line>) -> Seq<Row> {
    Seq::new(s.len(), |i: int| s[i].row())
}

/// The single row of node `n`.
pub open spec fn row_of(n: Node, depth: nat, selected: bool) -> Row {
    Row { depth, ticked: n.ticked, title: n.title, selected }
}

/// The rows of the node at index `j` of list `l`, where `p` is the cursor
/// path from `l` down: the node's own row and, when `p` passes through it,
/// the rows of its children.
pub open spec fn item_rows(l: Seq<Node>, p: Seq<usize>, j: int, depth: nat) -> Seq<Row>
    decreases p.len(), 0int,
{
    if p.len() > 0 && j == p[0] && 0 <= j < l.len() {
        seq![row_of(l[j], depth, p.len() == 1)] + rows_range(
            l[j].children,
            p.drop_first(),
            0,
            l[j].children.len() as int,
            depth + 1,
        )
    } else {
        seq![row_of(l[j], depth, false)]
    }
}

/// The rows of the nodes at indices `a..b` of list `l`, one after another.
pub open spec fn rows_range(l: Seq<Node>, p: Seq<usize>, a: int, b: int, depth: nat) -> Seq<Row>
    decreases p.len(), b - a,
{
    if b <= a {
        Seq::empty()
    } else {
        rows_range(l, p, a, b - 1, depth) + item_rows(l, p, b - 1, depth)
    }
}

/// The rendered height of the node at index `j` of `l`: how many rows it takes.
pub open spec fn item_height(l: Seq<Node>, p: Seq<usize>, j: int) -> nat {
    item_rows(l, p, j, 0).len()
}

/// The rows taken by the `k` top-level nodes that end at `index`
/// (`index - k + 1 ..= index`).
pub open spec fn back_height(doc: Seq<Node>, c: Seq<usize>, index: int, k: int) -> nat {
    rows_range(doc, c, index - k + 1, index + 1, 0).len()
}

/// A run of rows of height `h` fits in the upper half of a window of
/// `amount` rows, with room for the header and one spare row.
pub open spec fn fits_half(h: nat, amount: usize) -> bool {
    h + 2 < amount / 2
}

/// The number of rows a node takes does not depend on its depth.
pub proof fn lemma_rows_len(l: Seq<Node>, p: Seq<usize>, a: int, b: int, d1: nat, d2: nat)
    ensures
        rows_range(l, p, a, b, d1).len() == rows_range(l, p, a, b, d2).len(),
    decreases p.len(), b - a,
{
    if b > a {
        lemma_rows_len(l, p, a, b - 1, d1, d2);
        lemma_item_rows_len(l, p, b - 1, d1, d2);
    }
}

/// The number of rows of one node does not depend on its depth.
pub proof fn lemma_item_rows_len(l: Seq<Node>, p: Seq<usize>, j: int, d1: nat, d2: nat)
    ensures
        item_rows(l, p, j, d1).len() == item_rows(l, p, j, d2).len(),
    decreases p.len(), 0int,
{
    if p.len() > 0 && j == p[0] && 0 <= j < l.len() {
        lemma_rows_len(l[j].children, p.drop_first(), 0, l[j].children.len() as int, d1 + 1, d2 + 1);
    }
}

/// A range of rows can be split at its first node.
pub proof fn lemma_rows_range_front(l: Seq<Node>, p: Seq<usize>, a: int, b: int, depth: nat)
    requires
        a < b,
    ensures
        rows_range(l, p, a, b, depth) == item_rows(l, p, a, depth) + rows_range(l, p, a + 1, b, depth),
    decreases b - a,
{
    if b - 1 > a {
        lemma_rows_range_front(l, p, a, b - 1, depth);
        assert(rows_range(l, p, a, b, depth) =~= item_rows(l, p, a, depth) + rows_range(l, p, a + 1, b, depth));
    } else {
        assert(rows_range(l, p, a, a, depth) =~= Seq::<Row>::empty());
        assert(rows_range(l, p, a + 1, b, depth) =~= Seq::<Row>::empty());
        assert(rows_range(l, p, a, b, depth) =~= item_rows(l, p, a, depth));
    }
}

/// `min(a, b)` on naturals.
pub open spec fn min_nat(a: nat, b: nat) -> nat {
    if a <= b { a } else { b }
}

/// The rendered height of the item at index `j` of `l` (where `p[k..]` is
/// the cursor path from `l` down), or `cap` when it is larger.
fn height_capped(l: &Vec<TodoItem>, p: &Vec<usize>, k: usize, j: usize, cap: usize, Ghost(depth): Ghost<nat>) -> (r: usize)
    requires
        k <= p.len(),
        j < l.len(),
    ensures
        r == min_nat(item_rows(nodes(l@), p@.subrange(k as int, p.len() as int), j as int, depth).len(), cap as nat),
    decreases p.len() - k, 0int,
{
    let ghost q = p@.subrange(k as int, p.len() as int);
    if k < p.len() && p[k] == j {
        assert(q.drop_first() =~= p@.subrange(k + 1, p.len() as int));
        let item = &l[j];
        let below = range_height_capped(&item.contents, p, k + 1, item.contents.len(), cap, Ghost(depth + 1));
        if below < cap { below + 1 } else { cap }
    } else {
        if cap >= 1 { 1 } else { 0 }
    }
}

/// The rendered height of the items `0..b` of `l`, or `cap` when larger.
fn range_height_capped(l: &Vec<TodoItem>, p: &Vec<usize>, k: usize, b: usize, cap: usize, Ghost(depth): Ghost<nat>) -> (r: usize)
    requires
        k <= p.len(),
        b <= l.len(),
    ensures
        r == min_nat(rows_range(nodes(l@), p@.subrange(k as int, p.len() as int), 0, b as int, depth).len(), cap as nat),
    decreases p.len() - k, 1int,
{
    let ghost q = p@.subrange(k as int, p.len() as int);
    let mut sum: usize = 0;
    let mut j: usize = 0;
    while j < b
        invariant
            k <= p.len(),
            b <= l.len(),
            j <= b,
            q == p@.subrange(k as int, p.len() as int),
            sum == min_nat(rows_range(nodes(l@), q, 0, j as int, depth).len(), cap as nat),
        decreases b - j,
    {
        let h = height_capped(l, p, k, j, cap - sum, Ghost(depth));
        assert(rows_range(nodes(l@), q, 0, j + 1, depth).len()
            == rows_range(nodes(l@), q, 0, j as int, depth).len() + item_rows(nodes(l@), q, j as int, depth).len());
        sum = sum + h;
        j = j + 1;
    }
    sum
}

/// The first `n` elements of `s`, or all of `s` when it is shorter.
pub open spec fn clip<A>(s: Seq<A>, n: nat) -> Seq<A> {
    if n < s.len() { s.take(n as int) } else { s }
}

/// Clipping before appending more and clipping again is clipping once.
pub proof fn lemma_clip_append<A>(a: Seq<A>, z: Seq<A>, n: nat)
    ensures
        clip(clip(a, n) + z, n) == clip(a + z, n),
{
    if n < a.len() {
        assert(clip(clip(a, n) + z, n) =~= clip(a + z, n));
    }
}

/// The top-level entry of a valid cursor indexes the document, unless the
/// document is empty.
proof fn lemma_first_index(s: &WindowState)
    requires
        s.wf(),
    ensures
        s.doc().len() > 0 ==> s.cursor()[0] < s.doc().len(),
        s.doc().len() == 0 ==> s.cursor()[0] == 0,
{
    let c = s.cursor();
    if c.len() > 1 {
        assert(c.drop_last()[0] == c[0]);
    }
}

/// The rendered height of the top-level item at `j` under the session's
/// cursor, or `cap` when it is larger.
pub fn calc_item_length(state: &WindowState, j: usize, cap: usize) -> (r: usize)
    requires
        state.wf(),
        j < state.doc().len(),
    ensures
        r == min_nat(item_height(state.doc(), state.cursor(), j as int), cap as nat),
{
    let l = &state.cur_loaded_list().contents;
    let p = state.cursor_path();
    assert(p@.subrange(0, p.len() as int) =~= p@);
    let r = height_capped(l, p, 0, j, cap, Ghost(0));
    proof { lemma_item_rows_len(state.doc(), state.cursor(), j as int, 0, 0); }
    r
}

/// The number of top-level items to skip so that the selection stays in
/// view in a window of `amount` rows. Walking back from the selected
/// top-level item, whole items are taken while their rows fit in the upper
/// half of the window; the offset is the index of the last item taken (0
/// when the walk reached the first item).
pub fn scroll_offset(state: &WindowState, amount: usize) -> (r: usize)
    requires
        state.wf(),
    ensures
        r <= state.cursor()[0],
        ({
            let index = state.cursor()[0] as int;
            let k = index - r;
            &&& (k == 0 || fits_half(back_height(state.doc(), state.cursor(), index, k), amount))
            &&& (k == index || !fits_half(back_height(state.doc(), state.cursor(), index, k + 1), amount))
        }),
{
    let l = &state.cur_loaded_list().contents;
    let p = state.cursor_path();
    let ghost doc = state.doc();
    let ghost c = state.cursor();
    assert(p@.subrange(0, p.len() as int) =~= p@);
    proof { lemma_first_index(state); }
    let index = p[0];
    let half = amount / 2;
    let mut k: usize = 0;
    let mut full: usize = 0;
    assert(rows_range(doc, c, index + 1, index + 1, 0).len() == 0);
    while k < index
        invariant
            k <= index,
            state.wf(),
            c == state.cursor(),
            doc == state.doc(),
            index == c[0],
            index < doc.len() || index == 0,
            nodes(l@) == doc,
            p@ == c,
            p@.subrange(0, p.len() as int) == p@,
            half == amount / 2,
            full == back_height(doc, c, index as int, k as int),
            k == 0 || fits_half(full as nat, amount),
        decreases index - k,
    {
        let h = height_capped(l, p, 0, index - k, amount, Ghost(0));
        proof {
            lemma_rows_range_front(doc, c, index - k, index + 1, 0);
        }
        if h < half && full < half - h && half - h - full > 2 {
            full = full + h;
            k = k + 1;
        } else {
            return index - k;
        }
    }
    index - k
}

/// Appends the rows of item `j` of `l` to `out`, stopping at `limit` rows.
fn emit_item(l: &Vec<TodoItem>, p: &Vec<usize>, k: usize, j: usize, depth: usize, limit: usize, out: &mut Vec<Line>)
    requires
        k <= p.len(),
        depth <= k,
        j < l.len(),
        old(out).len() <= limit,
    ensures
        final(out).len() <= limit,
        rows_of(final(out)@) == clip(
            rows_of(old(out)@) + item_rows(nodes(l@), p@.subrange(k as int, p.len() as int), j as int, depth as nat),
            limit as nat,
        ),
    decreases p.len() - k, 0int,
{
    let ghost q = p@.subrange(k as int, p.len() as int);
    let ghost before = rows_of(out@);
    let ghost own = item_rows(nodes(l@), q, j as int, depth as nat);
    if out.len() >= limit {
        proof { assert(clip(before + own, limit as nat) =~= before); }
        return;
    }
    let item = &l[j];
    let on_path = k < p.len() && p[k] == j;
    let line = Line {
        depth,
        ticked: item.ticked_off,
        title: item.title.clone(),
        selected: on_path && k + 1 == p.len(),
    };
    out.push(line);
    assert(rows_of(out@) =~= before.push(line.row()));
    if on_path {
        assert(q.drop_first() =~= p@.subrange(k + 1, p.len() as int));
        let ghost mid = rows_of(out@);
        emit_range(&item.contents, p, k + 1, 0, item.contents.len(), depth + 1, limit, out);
        proof {
            let below = rows_range(nodes(item.contents@), q.drop_first(), 0, item.contents@.len() as int, (depth + 1) as nat);
            assert(own == seq![row_of(item.node(), depth as nat, q.len() == 1)] + below);
            assert(before + own =~= mid + below);
        }
    } else {
        assert(before + own =~= rows_of(out@));
    }
}

/// Appends the rows of items `a..b` of `l` to `out`, stopping at `limit` rows.
fn emit_range(l: &Vec<TodoItem>, p: &Vec<usize>, k: usize, a: usize, b: usize, depth: usize, limit: usize, out: &mut Vec<Line>)
    requires
        k <= p.len(),
        depth <= k,
        a <= b <= l.len(),
        old(out).len() <= limit,
    ensures
        final(out).len() <= limit,
        rows_of(final(out)@) == clip(
            rows_of(old(out)@) + rows_range(nodes(l@), p@.subrange(k as int, p.len() as int), a as int, b as int, depth as nat),
            limit as nat,
        ),
    decreases p.len() - k, 1int,
{
    let ghost q = p@.subrange(k as int, p.len() as int);
    let ghost before = rows_of(out@);
    let mut j = a;
    assert(before + rows_range(nodes(l@), q, a as int, a as int, depth as nat) =~= before);
    while j < b
        invariant
            k <= p.len(),
            depth <= k,
            a <= j <= b <= l.len(),
            q == p@.subrange(k as int, p.len() as int),
            out.len() <= limit,
            rows_of(out@) == clip(before + rows_range(nodes(l@), q, a as int, j as int, depth as nat), limit as nat),
        decreases b - j,
    {
        let ghost cur = before + rows_range(nodes(l@), q, a as int, j as int, depth as nat);
        let ghost it = item_rows(nodes(l@), q, j as int, depth as nat);
        emit_item(l, p, k, j, depth, limit, out);
        proof {
            lemma_clip_append(cur, it, limit as nat);
            assert(before + rows_range(nodes(l@), q, a as int, j + 1, depth as nat) =~= cur + it);
        }
        j = j + 1;
    }
}

/// The rows shown in a window of `amount` rows whose first row is the
/// top-level item at `offset`.
pub fn visible_lines(state: &WindowState, offset: usize, amount: usize) -> (r: Vec<Line>)
    requires
        state.wf(),
    ensures
        rows_of(r@) == clip(rows_range(state.doc(), state.cursor(), offset as int, state.doc().len() as int, 0), amount as nat),
{
    let l = &state.cur_loaded_list().contents;
    let p = state.cursor_path();
    assert(p@.subrange(0, p.len() as int) =~= p@);
    let mut out: Vec<Line> = Vec::new();
    assert(rows_of(out@) =~= Seq::<Row>::empty());
    let start = if offset <= l.len() { offset } else { l.len() };
    emit_range(l, p, 0, start, l.len(), 0, amount, &mut out);
    proof {
        if offset > l.len() {
            assert(rows_range(state.doc(), state.cursor(), offset as int, state.doc().len() as int, 0) =~= Seq::<Row>::empty());
        }
    }
    out
}

/// How many of the nodes of `s` are ticked off.
pub open spec fn ticked_count(s: Seq<Node>) -> nat
    decreases s.len(),
{
    if s.len() == 0 {
        0
    } else {
        ticked_count(s.drop_last()) + if s.last().ticked { 1nat } else { 0nat }
    }
}

/// At most all nodes are ticked off.
proof fn lemma_ticked_count_bound(s: Seq<Node>)
    ensures
        ticked_count(s) <= s.len(),
    decreases s.len(),
{
    if s.len() > 0 {
        lemma_ticked_count_bound(s.drop_last());
    }
}

/// The number of top-level items of the active document that are ticked off.
pub fn ticked_items(state: &WindowState) -> (r: usize)
    requires
        state.wf(),
    ensures
        r == ticked_count(state.doc()),
        r <= state.doc().len(),
{
    let l = &state.cur_loaded_list().contents;
    let ghost s = nodes(l@);
    let mut n: usize = 0;
    let mut j: usize = 0;
    while j < l.len()
        invariant
            j <= l.len(),
            s == nodes(l@),
            n == ticked_count(s.take(j as int)),
            n <= j,
        decreases l.len() - j,
    {
        assert(s.take(j + 1).drop_last() =~= s.take(j as int));
        if l[j].ticked_off {
            n = n + 1;
        }
        j = j + 1;
    }
    assert(s.take(j as int) =~= s);
    proof { lemma_ticked_count_bound(s); }
    n
}

/// The share of `ticked` among `total`, in whole percent rounded down; 0
/// when there is nothing to count.
pub open spec fn percent(ticked: nat, total: nat) -> nat {
    if total > 0 { (100 * ticked) / total } else { 0 }
}

/// The share of `ticked` among `total` in whole percent, rounded down.
pub fn percentage(ticked: usize, total: usize) -> (r: usize)
    requires
        ticked <= total,
    ensures
        r == percent(ticked as nat, total as nat),
        r <= 100,
{
    if total == 0 {
        return 0;
    }
    let t = ticked as u128;
    let n = total as u128;
    let p = (100 * t) / n;
    assert((100 * (t as int)) / (n as int) <= 100) by (nonlinear_arith)
        requires t <= n, n > 0;
    p as usize
}

/// The colour band of a completion percentage.
#[derive(Debug, Clone, Copy, PartialEq, Eq, Structural)]
pub enum Band {
    /// Up to a third done.
    Low,
    /// Up to two thirds done.
    Middle,
    /// More than two thirds done.
    High,
}

/// The band of `val`: 0 to 33 is low, 34 to 66 middle, anything above high.
pub fn color_band(val: usize) -> (r: Band)
    ensures
        val <= 33 ==> r == Band::Low,
        34 <= val <= 66 ==> r == Band::Middle,
        val > 66 ==> r == Band::High,
{
    if val <= 33 {
        Band::Low
    } else if val <= 66 {
        Band::Middle
    } else {
        Band::High
    }
}

} // verus!
