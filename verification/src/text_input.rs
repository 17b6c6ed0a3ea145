//! A single-line text input with a character cursor and undo history.
use vstd::prelude::*;
use crate::text::{
    char_count, insert_at, is_whitespace, is_ws, owned, remove_range, string_insert_at,
    string_remove_range, chars_of,
};

verus! {

/// An editing command for a text input.
#[derive(Clone, Copy, Debug, PartialEq, Eq, Structural)]
pub enum TextInputEdit {
    Insert(char),
    Backspace,
    Delete,
    MoveLeft,
    MoveRight,
    MoveHome,
    MoveEnd,
    DeletePreviousWord,
    DeleteToStart,
    Clear,
    Undo,
    Redo,
}

/// Whether an edit only moves the cursor.
pub open spec fn is_navigation(e: TextInputEdit) -> bool {
    e is MoveLeft || e is MoveRight || e is MoveHome || e is MoveEnd
}

/// Start of the whitespace run that ends at `c`.
pub open spec fn skip_ws_back(s: Seq<char>, c: int) -> int
    decreases c,
{
    if 0 < c <= s.len() && is_ws(s[c - 1]) {
        skip_ws_back(s, c - 1)
    } else {
        c
    }
}

/// Start of the non-whitespace run that ends at `c`.
pub open spec fn skip_word_back(s: Seq<char>, c: int) -> int
    decreases c,
{
    if 0 < c <= s.len() && !is_ws(s[c - 1]) {
        skip_word_back(s, c - 1)
    } else {
        c
    }
}

/// Where deleting the previous word from `c` stops: back over whitespace, then over the word.
pub open spec fn word_start(s: Seq<char>, c: int) -> int {
    skip_word_back(s, skip_ws_back(s, c))
}

pub proof fn lemma_skip_back_bounds(s: Seq<char>, c: int)
    requires
        0 <= c <= s.len(),
    ensures
        0 <= skip_ws_back(s, c) <= c,
        0 <= skip_word_back(s, c) <= c,
        0 <= word_start(s, c) <= c,
        c > 0 ==> word_start(s, c) < c,
    decreases c,
{
    if c > 0 {
        lemma_skip_back_bounds(s, c - 1);
        let w = skip_ws_back(s, c);
        lemma_skip_back_bounds_word(s, w);
    }
}

proof fn lemma_skip_back_bounds_word(s: Seq<char>, c: int)
    requires
        0 <= c <= s.len(),
    ensures
        0 <= skip_word_back(s, c) <= c,
        skip_ws_back(s, c) <= c,
        0 <= skip_ws_back(s, c),
    decreases c,
{
    if c > 0 {
        lemma_skip_back_bounds_word(s, c - 1);
    }
}

/// Exec [`word_start`].
pub fn word_start_exec(s: &Vec<char>, c: usize) -> (r: usize)
    requires
        c <= s@.len(),
    ensures
        r == word_start(s@, c as int),
{
    let mut start = c;
    proof {
        lemma_skip_back_bounds(s@, c as int);
    }
    while start > 0 && is_whitespace(s[start - 1])
        invariant
            start <= c <= s@.len(),
            skip_ws_back(s@, start as int) == skip_ws_back(s@, c as int),
        decreases start,
    {
        start -= 1;
    }
    let ghost w = start;
    while start > 0 && !is_whitespace(s[start - 1])
        invariant
            start <= w <= s@.len(),
            w == skip_ws_back(s@, c as int),
            skip_word_back(s@, start as int) == skip_word_back(s@, w as int),
        decreases start,
    {
        start -= 1;
    }
    start
}

/// Value and cursor of an input.
pub struct TextInputState {
    pub value: Seq<char>,
    pub cursor: nat,
}

/// Model of a [`TextInput`].
#[verifier::ext_equal]
pub struct TextInputView {
    pub value: Seq<char>,
    pub cursor: nat,
    pub history: Seq<TextInputState>,
    pub redo: Seq<TextInputState>,
}

/// Value and cursor saved for undo.
#[derive(Debug)]
pub struct TextInputSnapshot {
    value: String,
    cursor: usize,
}

impl TextInputSnapshot {
    #[verifier::type_invariant]
    spec fn snapshot_inv(&self) -> bool {
        self.cursor <= self.value@.len()
    }

    /// The saved state.
    pub closed spec fn state(&self) -> TextInputState {
        TextInputState { value: self.value@, cursor: self.cursor as nat }
    }
}

impl Clone for TextInputSnapshot {
    fn clone(&self) -> (r: TextInputSnapshot)
        ensures
            r.state() == self.state(),
    {
        proof {
            use_type_invariant(self);
        }
        TextInputSnapshot { value: self.value.clone(), cursor: self.cursor }
    }
}

/// The saved states of a stack of snapshots.
pub open spec fn snapshot_states(s: Seq<TextInputSnapshot>) -> Seq<TextInputState> {
    s.map_values(|x: TextInputSnapshot| x.state())
}

/// A single-line text input.
#[derive(Debug)]
pub struct TextInput {
    value: String,
    cursor: usize,
    history: Vec<TextInputSnapshot>,
    redo: Vec<TextInputSnapshot>,
}

impl View for TextInput {
    type V = TextInputView;

    closed spec fn view(&self) -> TextInputView {
        TextInputView {
            value: self.value@,
            cursor: self.cursor as nat,
            history: snapshot_states(self.history@),
            redo: snapshot_states(self.redo@),
        }
    }
}

/// The current state of an input.
pub open spec fn state_of(v: TextInputView) -> TextInputState {
    TextInputState { value: v.value, cursor: v.cursor }
}

/// The current state pushed to the undo stack; the redo stack cleared.
pub open spec fn recorded(v: TextInputView) -> TextInputView {
    TextInputView { history: v.history.push(state_of(v)), redo: Seq::empty(), ..v }
}

/// A recorded change to `value` with the cursor at `cursor`.
pub open spec fn edited(v: TextInputView, value: Seq<char>, cursor: nat) -> TextInputView {
    TextInputView { value, cursor, ..recorded(v) }
}

/// The cursor moved to `cursor`.
pub open spec fn moved(v: TextInputView, cursor: nat) -> (TextInputView, bool) {
    (TextInputView { cursor, ..v }, cursor != v.cursor)
}

/// Undo: the last saved state comes back, the current one goes to the redo stack.
pub open spec fn input_undo(v: TextInputView) -> (TextInputView, bool) {
    if v.history.len() == 0 {
        (v, false)
    } else {
        let last = v.history.last();
        (
            TextInputView {
                value: last.value,
                cursor: last.cursor,
                history: v.history.drop_last(),
                redo: v.redo.push(state_of(v)),
            },
            true,
        )
    }
}

/// Redo: the last undone state comes back, the current one goes to the undo stack.
pub open spec fn input_redo(v: TextInputView) -> (TextInputView, bool) {
    if v.redo.len() == 0 {
        (v, false)
    } else {
        let last = v.redo.last();
        (
            TextInputView {
                value: last.value,
                cursor: last.cursor,
                redo: v.redo.drop_last(),
                history: v.history.push(state_of(v)),
            },
            true,
        )
    }
}

/// An edit applied to an input, and whether it changed the value, the cursor or (for undo and
/// redo) the history.
pub open spec fn input_apply(v: TextInputView, e: TextInputEdit) -> (TextInputView, bool) {
    let s = v.value;
    let c = v.cursor;
    match e {
        TextInputEdit::Insert(ch) => (edited(v, insert_at(s, c as int, ch), c + 1), true),
        TextInputEdit::Backspace => if c == 0 {
            (v, false)
        } else {
            (edited(v, remove_range(s, c - 1, c as int), (c - 1) as nat), true)
        },
        TextInputEdit::Delete => if c >= s.len() {
            (v, false)
        } else {
            (edited(v, remove_range(s, c as int, c as int + 1), c), true)
        },
        TextInputEdit::MoveLeft => moved(
            v,
            if c == 0 {
                0
            } else {
                (c - 1) as nat
            },
        ),
        TextInputEdit::MoveRight => moved(
            v,
            if c < s.len() {
                c + 1
            } else {
                s.len()
            },
        ),
        TextInputEdit::MoveHome => moved(v, 0),
        TextInputEdit::MoveEnd => moved(v, s.len()),
        TextInputEdit::DeletePreviousWord => if c == 0 {
            (v, false)
        } else {
            let st = word_start(s, c as int);
            (edited(v, remove_range(s, st, c as int), st as nat), true)
        },
        TextInputEdit::DeleteToStart => if c == 0 {
            (v, false)
        } else {
            (edited(v, s.skip(c as int), 0), true)
        },
        TextInputEdit::Clear => if s.len() == 0 {
            (v, false)
        } else {
            (edited(v, Seq::empty(), 0), true)
        },
        TextInputEdit::Undo => input_undo(v),
        TextInputEdit::Redo => input_redo(v),
    }
}

/// A fresh input holding `value` with the cursor at its end.
pub open spec fn fresh_input(value: Seq<char>) -> TextInputView {
    TextInputView { value, cursor: value.len(), history: Seq::empty(), redo: Seq::empty() }
}

impl TextInput {
    #[verifier::type_invariant]
    spec fn input_inv(&self) -> bool {
        self.cursor <= self.value@.len()
    }

    /// An input holding `value`, the cursor at its end.
    pub fn from(value: &str) -> (r: TextInput)
        ensures
            r@ == fresh_input(value@),
    {
        let value = owned(value);
        let cursor = char_count(value.as_str());
        let r = TextInput { value, cursor, history: Vec::new(), redo: Vec::new() };
        assert(r@ =~= fresh_input(value@));
        r
    }

    /// An empty input.
    pub fn new() -> (r: TextInput)
        ensures
            r@ == fresh_input(Seq::empty()),
    {
        let r = TextInput { value: String::new(), cursor: 0, history: Vec::new(), redo: Vec::new() };
        assert(r@ =~= fresh_input(Seq::empty()));
        r
    }

    /// The text.
    pub fn value(&self) -> (r: &str)
        ensures
            r@ == self@.value,
    {
        self.value.as_str()
    }

    /// The cursor, as a character index; it never lies past the end of the text.
    pub fn cursor(&self) -> (r: usize)
        ensures
            r == self@.cursor,
            r <= self@.value.len(),
    {
        proof {
            use_type_invariant(self);
        }
        self.cursor
    }

    /// The same value and cursor without undo history.
    pub fn without_history(&self) -> (r: TextInput)
        ensures
            r@ == (TextInputView { history: Seq::empty(), redo: Seq::empty(), ..self@ }),
    {
        proof {
            use_type_invariant(self);
        }
        let r = TextInput {
            value: self.value.clone(),
            cursor: self.cursor,
            history: Vec::new(),
            redo: Vec::new(),
        };
        assert(r@ =~= (TextInputView { history: Seq::empty(), redo: Seq::empty(), ..self@ }));
        r
    }

    /// Whether value and cursor equal those of `other`.
    pub fn same_state(&self, other: &TextInput) -> (r: bool)
        ensures
            r == (state_of(self@) == state_of(other@)),
    {
        self.value == other.value && self.cursor == other.cursor
    }

    fn snapshot(&self) -> (s: TextInputSnapshot)
        ensures
            s.state() == state_of(self@),
    {
        proof {
            use_type_invariant(self);
        }
        TextInputSnapshot { value: self.value.clone(), cursor: self.cursor }
    }

    /// Saves the current state for undo and replaces it.
    fn commit(&mut self, value: String, cursor: usize)
        requires
            cursor <= value@.len(),
        ensures
            final(self)@ == edited(old(self)@, value@, cursor as nat),
    {
        proof {
            use_type_invariant(&*self);
        }
        let snap = self.snapshot();
        let mut history = Vec::new();
        std::mem::swap(&mut history, &mut self.history);
        history.push(snap);
        let ghost h = history@;
        *self = TextInput { value, cursor, history, redo: Vec::new() };
        assert(snapshot_states(h) =~= snapshot_states(old(self).history@).push(state_of(old(self)@)));
        assert(self@ =~= edited(old(self)@, value@, cursor as nat));
    }

    fn move_to(&mut self, cursor: usize)
        requires
            cursor <= old(self)@.value.len(),
        ensures
            final(self)@ == (TextInputView { cursor: cursor as nat, ..old(self)@ }),
    {
        self.cursor = cursor;
        assert(self@ =~= (TextInputView { cursor: cursor as nat, ..old(self)@ }));
    }

    /// Inserts a character at the cursor (see [`input_apply`]).
    pub fn insert(&mut self, c: char)
        ensures
            final(self)@ == input_apply(old(self)@, TextInputEdit::Insert(c)).0,
    {
        proof {
            use_type_invariant(&*self);
        }
        let next = string_insert_at(&self.value, self.cursor, c);
        let n = char_count(next.as_str());
        let cursor = self.cursor + 1;
        self.commit(next, cursor);
    }

    /// Replaces the value (an undoable change); the cursor stays, capped at the new end.
    pub fn set(&mut self, value: String)
        ensures
            final(self)@ == edited(
                old(self)@,
                value@,
                if old(self)@.cursor <= value@.len() {
                    old(self)@.cursor
                } else {
                    value@.len()
                },
            ),
    {
        let n = char_count(value.as_str());
        let cursor = if self.cursor <= n {
            self.cursor
        } else {
            n
        };
        self.commit(value, cursor);
    }

    /// Moves the cursor to `cursor`, capped at the end of the value.
    pub fn set_cursor(&mut self, cursor: usize)
        ensures
            final(self)@ == (TextInputView {
                cursor: if cursor <= old(self)@.value.len() {
                    cursor as nat
                } else {
                    old(self)@.value.len()
                },
                ..old(self)@
            }),
    {
        let n = char_count(self.value.as_str());
        let c = if cursor <= n {
            cursor
        } else {
            n
        };
        self.move_to(c);
    }

    /// Restores the last saved state (see [`input_undo`]).
    pub fn undo(&mut self) -> (r: bool)
        ensures
            (final(self)@, r) == input_undo(old(self)@),
    {
        proof {
            use_type_invariant(&*self);
        }
        let current = self.snapshot();
        let mut history = Vec::new();
        std::mem::swap(&mut history, &mut self.history);
        match history.pop() {
            Some(snap) => {
                proof {
                    use_type_invariant(&snap);
                }
                let mut redo = Vec::new();
                std::mem::swap(&mut redo, &mut self.redo);
                redo.push(current);
                let ghost rh = redo@;
                let ghost hh = history@;
                *self = TextInput { value: snap.value, cursor: snap.cursor, history, redo };
                assert(snapshot_states(rh) =~= snapshot_states(old(self).redo@).push(state_of(old(self)@)));
                assert(snapshot_states(hh) =~= snapshot_states(old(self).history@).drop_last());
                assert(self@ =~= input_undo(old(self)@).0);
                true
            },
            None => {
                std::mem::swap(&mut history, &mut self.history);
                assert(self@ =~= old(self)@);
                false
            },
        }
    }

    /// Restores the last undone state (see [`input_redo`]).
    pub fn redo(&mut self) -> (r: bool)
        ensures
            (final(self)@, r) == input_redo(old(self)@),
    {
        proof {
            use_type_invariant(&*self);
        }
        let current = self.snapshot();
        let mut redo = Vec::new();
        std::mem::swap(&mut redo, &mut self.redo);
        match redo.pop() {
            Some(snap) => {
                proof {
                    use_type_invariant(&snap);
                }
                let mut history = Vec::new();
                std::mem::swap(&mut history, &mut self.history);
                history.push(current);
                let ghost rh = redo@;
                let ghost hh = history@;
                *self = TextInput { value: snap.value, cursor: snap.cursor, history, redo };
                assert(snapshot_states(hh) =~= snapshot_states(old(self).history@).push(state_of(old(self)@)));
                assert(snapshot_states(rh) =~= snapshot_states(old(self).redo@).drop_last());
                assert(self@ =~= input_redo(old(self)@).0);
                true
            },
            None => {
                std::mem::swap(&mut redo, &mut self.redo);
                assert(self@ =~= old(self)@);
                false
            },
        }
    }

    /// Applies an edit (see [`input_apply`]) and says whether anything changed.
    pub fn apply(&mut self, edit: TextInputEdit) -> (changed: bool)
        ensures
            (final(self)@, changed) == input_apply(old(self)@, edit),
    {
        proof {
            use_type_invariant(&*self);
        }
        let n = char_count(self.value.as_str());
        let c = self.cursor;
        match edit {
            TextInputEdit::Insert(ch) => {
                self.insert(ch);
                true
            },
            TextInputEdit::Backspace => {
                if c == 0 {
                    return false;
                }
                let next = string_remove_range(&self.value, c - 1, c);
                self.commit(next, c - 1);
                true
            },
            TextInputEdit::Delete => {
                if c >= n {
                    return false;
                }
                let next = string_remove_range(&self.value, c, c + 1);
                self.commit(next, c);
                true
            },
            TextInputEdit::MoveLeft => {
                let t = if c == 0 {
                    0
                } else {
                    c - 1
                };
                self.move_to(t);
                t != c
            },
            TextInputEdit::MoveRight => {
                let t = if c < n {
                    c + 1
                } else {
                    n
                };
                self.move_to(t);
                t != c
            },
            TextInputEdit::MoveHome => {
                self.move_to(0);
                c != 0
            },
            TextInputEdit::MoveEnd => {
                self.move_to(n);
                c != n
            },
            TextInputEdit::DeletePreviousWord => {
                if c == 0 {
                    return false;
                }
                let cs = chars_of(self.value.as_str());
                let st = word_start_exec(&cs, c);
                proof {
                    lemma_skip_back_bounds(cs@, c as int);
                }
                let next = string_remove_range(&self.value, st, c);
                self.commit(next, st);
                true
            },
            TextInputEdit::DeleteToStart => {
                if c == 0 {
                    return false;
                }
                let next = string_remove_range(&self.value, 0, c);
                assert(remove_range(old(self)@.value, 0, c as int) =~= old(self)@.value.skip(c as int));
                self.commit(next, 0);
                true
            },
            TextInputEdit::Clear => {
                if n == 0 {
                    return false;
                }
                self.commit(String::new(), 0);
                true
            },
            TextInputEdit::Undo => self.undo(),
            TextInputEdit::Redo => self.redo(),
        }
    }
}

/// Copies of the snapshots of a stack.
fn clone_snapshots(v: &Vec<TextInputSnapshot>) -> (r: Vec<TextInputSnapshot>)
    ensures
        snapshot_states(r@) == snapshot_states(v@),
{
    let mut r: Vec<TextInputSnapshot> = Vec::new();
    let mut i: usize = 0;
    while i < v.len()
        invariant
            i <= v.len(),
            snapshot_states(r@) == snapshot_states(v@.take(i as int)),
        decreases v.len() - i,
    {
        let ghost before = r@;
        r.push(v[i].clone());
        assert(snapshot_states(r@) =~= snapshot_states(before).push(v@[i as int].state()));
        assert(snapshot_states(v@.take(i + 1)) =~= snapshot_states(v@.take(i as int)).push(v@[i as int].state()));
        i += 1;
    }
    assert(v@.take(v.len() as int) =~= v@);
    r
}

impl Clone for TextInput {
    fn clone(&self) -> (r: TextInput)
        ensures
            r@ == self@,
    {
        proof {
            use_type_invariant(self);
        }
        let r = TextInput {
            value: self.value.clone(),
            cursor: self.cursor,
            history: clone_snapshots(&self.history),
            redo: clone_snapshots(&self.redo),
        };
        assert(r@ =~= self@);
        r
    }
}

impl Default for TextInput {
    fn default() -> (r: TextInput)
        ensures
            r@ == fresh_input(Seq::empty()),
    {
        TextInput::new()
    }
}

/// The cursor of an input model lies within its text.
pub open spec fn input_valid(v: TextInputView) -> bool {
    v.cursor <= v.value.len()
}

/// An edit that reports a change, other than navigation, undo or redo, alters the value.
pub proof fn lemma_edit_changes_value(v: TextInputView, e: TextInputEdit)
    requires
        input_valid(v),
        !is_navigation(e),
        !(e is Undo),
        !(e is Redo),
        input_apply(v, e).1,
    ensures
        input_apply(v, e).0.value != v.value,
        input_apply(v, e).0.history == v.history.push(state_of(v)),
{
    let (w, _) = input_apply(v, e);
    match e {
        TextInputEdit::Insert(c) => {
            assert(w.value.len() == v.value.len() + 1);
        },
        TextInputEdit::Backspace => {
            assert(w.value.len() == v.value.len() - 1);
        },
        TextInputEdit::Delete => {
            assert(w.value.len() == v.value.len() - 1);
        },
        TextInputEdit::DeletePreviousWord => {
            lemma_skip_back_bounds(v.value, v.cursor as int);
            assert(w.value.len() < v.value.len());
        },
        TextInputEdit::DeleteToStart => {
            assert(w.value.len() < v.value.len());
        },
        TextInputEdit::Clear => {
            assert(w.value.len() < v.value.len());
        },
        _ => {},
    }
}

/// Undoing right after an edit that changed the input gives back its value and cursor and
/// the undo stack as it was.
pub proof fn law_input_undo_reverts_edit(v: TextInputView, e: TextInputEdit)
    requires
        input_valid(v),
        !is_navigation(e),
        !(e is Undo),
        !(e is Redo),
        input_apply(v, e).1,
    ensures
        ({
            let (w, _) = input_apply(v, e);
            let (u, ok) = input_undo(w);
            ok && state_of(u) == state_of(v) && u.history == v.history
        }),
{
    lemma_edit_changes_value(v, e);
    let (w, _) = input_apply(v, e);
    assert(w.history.drop_last() =~= v.history);
}

/// Redo right after undo gives back the value, the cursor and both stacks.
pub proof fn law_input_redo_after_undo(v: TextInputView)
    requires
        v.history.len() > 0,
    ensures
        ({
            let (u, ok) = input_undo(v);
            let (r, ok2) = input_redo(u);
            ok && ok2 && state_of(r) == state_of(v) && r.history == v.history && r.redo == v.redo
        }),
{
    let (u, _) = input_undo(v);
    assert(u.history.push(state_of(u)) =~= v.history);
    assert(u.redo.drop_last() =~= v.redo);
}

} // verus!
