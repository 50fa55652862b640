//! The one-line text prompt: the buffer being edited, where the edit point
//! is, and how keys and path completions change them.
use vstd::prelude::*;
use vstd::arithmetic::div_mod::{lemma_fundamental_div_mod, lemma_fundamental_div_mod_converse};

verus! {

/// Moves `pos` forward over the characters after it up to the next space:
/// it ends on the last character before that space (or the end).
pub open spec fn forward_word_spec(pos: nat, text: Seq<char>) -> nat
    decreases text.len() - pos,
{
    if pos + 1 < text.len() && text[(pos + 1) as int] != ' ' {
        forward_word_spec(pos + 1, text)
    } else {
        pos
    }
}

/// `pos` moved back over the spaces just before it.
pub open spec fn skip_spaces_back(pos: nat, text: Seq<char>) -> nat
    decreases pos,
{
    if 0 < pos <= text.len() && text[pos - 1] == ' ' {
        skip_spaces_back((pos - 1) as nat, text)
    } else {
        pos
    }
}

/// `pos` moved back over the non-space characters just before it: the
/// start of the word that ends at `pos`.
pub open spec fn word_start(pos: nat, text: Seq<char>) -> nat
    decreases pos,
{
    if 0 < pos <= text.len() && text[pos - 1] != ' ' {
        word_start((pos - 1) as nat, text)
    } else {
        pos
    }
}

/// `pos` moved to the start of the word that ends before it, past any
/// spaces in between.
pub open spec fn backward_word_spec(pos: nat, text: Seq<char>) -> nat {
    word_start(skip_spaces_back(pos, text), text)
}

/// Word motion forward.
pub fn forward_word(pos: &mut usize, text: &Vec<char>)
    ensures
        *final(pos) == forward_word_spec(*old(pos) as nat, text@),
{
    let n = text.len();
    while *pos < n && *pos + 1 < n && text[*pos + 1] != ' '
        invariant
            n == text@.len(),
            forward_word_spec(*pos as nat, text@) == forward_word_spec(*old(pos) as nat, text@),
        decreases n - *pos,
    {
        *pos = *pos + 1;
    }
}

/// Word motion backward: to the start of the word that ends before the
/// edit point, past any spaces in between.
pub fn backward_word(pos: &mut usize, text: &Vec<char>)
    requires
        *old(pos) <= text@.len(),
    ensures
        *final(pos) == backward_word_spec(*old(pos) as nat, text@),
        *final(pos) <= *old(pos),
{
    let mut p = *pos;
    while p > 0 && text[p - 1] == ' '
        invariant
            p <= *old(pos) <= text@.len(),
            skip_spaces_back(p as nat, text@) == skip_spaces_back(*old(pos) as nat, text@),
        decreases p,
    {
        p = p - 1;
    }
    let ghost q = p as nat;
    while p > 0 && text[p - 1] != ' '
        invariant
            p <= q <= *old(pos) <= text@.len(),
            q == skip_spaces_back(*old(pos) as nat, text@),
            word_start(p as nat, text@) == word_start(q, text@),
        decreases p,
    {
        p = p - 1;
    }
    *pos = p;
}

/// The position of the last `/` in `s`, if any.
pub open spec fn last_slash(s: Seq<char>) -> Option<int>
    decreases s.len(),
{
    if s.len() == 0 {
        None
    } else if s.last() == '/' {
        Some(s.len() - 1)
    } else {
        last_slash(s.drop_last())
    }
}

/// Splits a path at its last `/` into the directory part (if there is a
/// `/`) and the file part.
pub fn split_path(path: &Vec<char>) -> (r: (Option<Vec<char>>, Vec<char>))
    ensures
        last_slash(path@) is None ==> r.0 is None && r.1@ == path@,
        last_slash(path@) matches Some(i) ==> r.0 is Some && r.0->0@ == path@.take(i) && r.1@ == path@.skip(i + 1),
{
    let n = path.len();
    let mut i = n;
    assert(path@.take(n as int) =~= path@);
    while i > 0 && path[i - 1] != '/'
        invariant
            i <= n,
            n == path@.len(),
            last_slash(path@) == last_slash(path@.take(i as int)),
        decreases i,
    {
        assert(path@.take(i as int).drop_last() =~= path@.take(i - 1));
        i = i - 1;
    }
    let mut file: Vec<char> = Vec::new();
    let mut j = i;
    while j < n
        invariant
            i <= j <= n,
            n == path@.len(),
            file@ == path@.subrange(i as int, j as int),
        decreases n - j,
    {
        file.push(path[j]);
        j = j + 1;
        assert(file@ =~= path@.subrange(i as int, j as int));
    }
    if i == 0 {
        assert(path@.take(0) =~= Seq::<char>::empty());
        assert(file@ =~= path@);
        (None, file)
    } else {
        let mut dir: Vec<char> = Vec::new();
        let mut k: usize = 0;
        while k < i - 1
            invariant
                k <= i - 1,
                i <= n,
                n == path@.len(),
                dir@ == path@.take(k as int),
            decreases i - 1 - k,
        {
            dir.push(path[k]);
            k = k + 1;
            assert(dir@ =~= path@.take(k as int));
        }
        assert(path@.take(i as int).drop_last() =~= path@.take(i - 1));
        assert(file@ =~= path@.skip(i as int));
        (Some(dir), file)
    }
}

/// `s` begins with `prefix`.
pub open spec fn starts_with(s: Seq<char>, prefix: Seq<char>) -> bool {
    prefix.len() <= s.len() && s.take(prefix.len() as int) == prefix
}

/// Whether `s` begins with `prefix`.
pub fn has_prefix(s: &Vec<char>, prefix: &Vec<char>) -> (r: bool)
    ensures
        r == starts_with(s@, prefix@),
{
    if prefix.len() > s.len() {
        return false;
    }
    let mut k: usize = 0;
    while k < prefix.len()
        invariant
            k <= prefix@.len() <= s@.len(),
            s@.take(k as int) == prefix@.take(k as int),
        decreases prefix@.len() - k,
    {
        if s[k] != prefix[k] {
            assert(s@.take(prefix@.len() as int)[k as int] != prefix@[k as int]);
            return false;
        }
        k = k + 1;
        assert(s@.take(k as int) =~= prefix@.take(k as int));
    }
    assert(prefix@.take(k as int) =~= prefix@);
    true
}

/// The entries of `names` that begin with `prefix`, in their order.
pub open spec fn matching(names: Seq<Vec<char>>, prefix: Seq<char>) -> Seq<Seq<char>>
    decreases names.len(),
{
    if names.len() == 0 {
        Seq::empty()
    } else if starts_with(names.last()@, prefix) {
        matching(names.drop_last(), prefix).push(names.last()@)
    } else {
        matching(names.drop_last(), prefix)
    }
}

/// The directory entries `names` that complete the file part `prefix`.
pub fn path_completions(names: &Vec<Vec<char>>, prefix: &Vec<char>) -> (r: Vec<Vec<char>>)
    ensures
        r@.len() == matching(names@, prefix@).len(),
        forall|i: int| 0 <= i < r@.len() ==> r@[i]@ == matching(names@, prefix@)[i],
{
    let mut out: Vec<Vec<char>> = Vec::new();
    let mut j: usize = 0;
    while j < names.len()
        invariant
            j <= names@.len(),
            out@.len() == matching(names@.take(j as int), prefix@).len(),
            forall|i: int| 0 <= i < out@.len() ==> out@[i]@ == matching(names@.take(j as int), prefix@)[i],
        decreases names@.len() - j,
    {
        assert(names@.take(j + 1).drop_last() =~= names@.take(j as int));
        if has_prefix(&names[j], prefix) {
            out.push(names[j].clone());
        }
        j = j + 1;
    }
    assert(names@.take(j as int) =~= names@);
    out
}

/// The state of a one-line prompt: the text, the edit point (between
/// characters, `0..=len`), and, while cycling through path completions, the
/// text typed before the first completion and the completion shown.
pub struct LineEditor {
    buffer: Vec<char>,
    pos: usize,
    saved: Vec<char>,
    completing: bool,
    choice: usize,
}

impl LineEditor {
    /// The text being edited.
    pub closed spec fn text(&self) -> Seq<char> {
        self.buffer@
    }

    /// The edit point.
    pub closed spec fn at(&self) -> nat {
        self.pos as nat
    }

    /// Whether the text is a completion that `revert` can undo.
    pub closed spec fn completing(&self) -> bool {
        self.completing
    }

    /// The text typed before the first completion.
    pub closed spec fn typed(&self) -> Seq<char> {
        self.saved@
    }

    /// Which completion is shown.
    pub closed spec fn choice(&self) -> nat {
        self.choice as nat
    }

    /// The edit point lies within the text.
    pub open spec fn wf(&self) -> bool {
        self.at() <= self.text().len()
    }

    /// A prompt holding `initial`, with the edit point at its end.
    pub fn new(initial: Vec<char>) -> (r: Self)
        ensures
            r.wf(),
            r.text() == initial@,
            r.at() == initial@.len(),
            !r.completing(),
    {
        let pos = initial.len();
        LineEditor { buffer: initial, pos, saved: Vec::new(), completing: false, choice: 0 }
    }

    /// The text being edited.
    pub fn buffer(&self) -> (r: &Vec<char>)
        ensures
            r@ == self.text(),
    {
        &self.buffer
    }

    /// The edit point.
    pub fn position(&self) -> (r: usize)
        ensures
            r == self.at(),
    {
        self.pos
    }

    /// The text that completions are sought for: what was typed before the
    /// first completion while cycling, else the text itself.
    pub fn completion_source(&self) -> (r: &Vec<char>)
        ensures
            r@ == if self.completing() { self.typed() } else { self.text() },
    {
        if self.completing { &self.saved } else { &self.buffer }
    }

    /// Types `c` at the edit point.
    pub fn insert(&mut self, c: char)
        requires
            old(self).wf(),
        ensures
            final(self).wf(),
            final(self).text() == old(self).text().insert(old(self).at() as int, c),
            final(self).at() == old(self).at() + 1,
            !final(self).completing(),
    {
        self.buffer.insert(self.pos, c);
        let n = self.buffer.len();
        assert(self.pos < n);
        self.pos = self.pos + 1;
        self.completing = false;
    }

    /// Deletes the character before the edit point, if any.
    pub fn backspace(&mut self)
        requires
            old(self).wf(),
        ensures
            final(self).wf(),
            old(self).at() > 0 ==> final(self).text() == old(self).text().remove(old(self).at() - 1)
                && final(self).at() == old(self).at() - 1,
            old(self).at() == 0 ==> final(self).text() == old(self).text() && final(self).at() == 0,
            !final(self).completing(),
    {
        if self.pos > 0 {
            self.buffer.remove(self.pos - 1);
            self.pos = self.pos - 1;
        }
        self.completing = false;
    }

    /// Moves the edit point one place left, stopping at the start.
    pub fn left(&mut self)
        requires
            old(self).wf(),
        ensures
            final(self).wf(),
            final(self).text() == old(self).text(),
            final(self).at() == if old(self).at() > 0 { (old(self).at() - 1) as nat } else { 0 },
            final(self).completing() == old(self).completing(),
            final(self).typed() == old(self).typed(),
            final(self).choice() == old(self).choice(),
    {
        if self.pos > 0 {
            self.pos = self.pos - 1;
        }
    }

    /// Moves the edit point one place right, stopping at the end.
    pub fn right(&mut self)
        requires
            old(self).wf(),
        ensures
            final(self).wf(),
            final(self).text() == old(self).text(),
            final(self).at() == if old(self).at() < old(self).text().len() { old(self).at() + 1 } else { old(self).at() },
            final(self).completing() == old(self).completing(),
            final(self).typed() == old(self).typed(),
            final(self).choice() == old(self).choice(),
    {
        if self.pos < self.buffer.len() {
            self.pos = self.pos + 1;
        }
    }

    /// Word motion forward.
    pub fn word_forward(&mut self)
        requires
            old(self).wf(),
        ensures
            final(self).wf(),
            final(self).text() == old(self).text(),
            final(self).at() == forward_word_spec(old(self).at(), old(self).text()),
            final(self).completing() == old(self).completing(),
            final(self).typed() == old(self).typed(),
            final(self).choice() == old(self).choice(),
    {
        let ghost p0 = self.pos as nat;
        proof { lemma_forward_word_bound(p0, self.buffer@); }
        forward_word(&mut self.pos, &self.buffer);
    }

    /// Word motion backward.
    pub fn word_back(&mut self)
        requires
            old(self).wf(),
        ensures
            final(self).wf(),
            final(self).text() == old(self).text(),
            final(self).at() == backward_word_spec(old(self).at(), old(self).text()),
            final(self).completing() == old(self).completing(),
            final(self).typed() == old(self).typed(),
            final(self).choice() == old(self).choice(),
    {
        backward_word(&mut self.pos, &self.buffer);
    }

    /// Shows the next of `candidates`, the completions of
    /// `completion_source()`: the first one after typing, the following one
    /// (wrapping around) on each further call. Nothing happens without
    /// candidates.
    pub fn complete(&mut self, candidates: &Vec<Vec<char>>)
        requires
            old(self).wf(),
        ensures
            final(self).wf(),
            candidates@.len() == 0 ==> *final(self) == *old(self),
            candidates@.len() > 0 ==> {
                let k = if old(self).completing() { ((old(self).choice() + 1) as int % (candidates@.len() as int)) as nat } else { 0 };
                &&& final(self).completing()
                &&& final(self).choice() == k
                &&& final(self).text() == candidates@[k as int]@
                &&& final(self).at() == final(self).text().len()
                &&& final(self).typed() == if old(self).completing() { old(self).typed() } else { old(self).text() }
            },
    {
        let n = candidates.len();
        if n == 0 {
            return;
        }
        if self.completing {
            let c = self.choice % n;
            let next = if c + 1 < n { c + 1 } else { 0 };
            proof { lemma_next_choice(self.choice as int, n as int, c as int, next as int); }
            self.choice = next;
        } else {
            let mut typed: Vec<char> = Vec::new();
            std::mem::swap(&mut typed, &mut self.buffer);
            self.saved = typed;
            self.choice = 0;
            self.completing = true;
        }
        self.buffer = candidates[self.choice].clone();
        self.pos = self.buffer.len();
    }

    /// Undoes the completions, giving back the text typed before them.
    pub fn revert(&mut self)
        requires
            old(self).wf(),
        ensures
            final(self).wf(),
            old(self).completing() ==> final(self).text() == old(self).typed()
                && final(self).at() == old(self).typed().len(),
            !old(self).completing() ==> final(self).text() == old(self).text() && final(self).at() == old(self).at(),
            !final(self).completing(),
    {
        if self.completing {
            let mut typed: Vec<char> = Vec::new();
            std::mem::swap(&mut typed, &mut self.saved);
            self.buffer = typed;
            self.pos = self.buffer.len();
            self.completing = false;
        }
    }
}

/// Stepping to the next of `n` choices after `c0` wraps around modulo `n`.
proof fn lemma_next_choice(c0: int, n: int, c: int, next: int)
    requires
        c0 >= 0,
        n > 0,
        c == c0 % n,
        next == if c + 1 < n { c + 1 } else { 0 },
    ensures
        next == (c0 + 1) % n,
{
    let q = c0 / n;
    lemma_fundamental_div_mod(c0, n);
    if c + 1 < n {
        assert(c0 + 1 == q * n + (c + 1)) by (nonlinear_arith)
            requires c0 == n * q + c;
        lemma_fundamental_div_mod_converse(c0 + 1, n, q, c + 1);
    } else {
        assert(c0 + 1 == (q + 1) * n + 0) by (nonlinear_arith)
            requires c0 == n * q + c, c + 1 == n;
        lemma_fundamental_div_mod_converse(c0 + 1, n, q + 1, 0);
    }
}

/// Forward word motion stays within the text.
proof fn lemma_forward_word_bound(pos: nat, text: Seq<char>)
    requires
        pos <= text.len(),
    ensures
        pos <= forward_word_spec(pos, text) <= text.len(),
    decreases text.len() - pos,
{
    if pos + 1 < text.len() && text[(pos + 1) as int] != ' ' {
        lemma_forward_word_bound(pos + 1, text);
    }
}

} // verus!
