//! A text buffer with a cursor counted in characters.
use vstd::prelude::*;
use vstd::string::*;
use vstd::utf8::*;
use crate::text::{byte_offset, insert_char_at, lemma_byte_offset_step, string_push, utf8_width};

verus! {

broadcast use vstd::string::group_string_axioms;

/// What an [`Editor`] holds: its characters and a cursor, a character offset
/// into them.
pub ghost struct EditorView {
    pub content: Seq<char>,
    pub cursor: nat,
}

impl EditorView {
    /// The cursor lies in `[0, content.len()]`.
    pub open spec fn wf(self) -> bool {
        self.cursor <= self.content.len()
    }

    /// `pos` brought into `[0, content.len()]`.
    pub open spec fn clamp(self, pos: int) -> nat {
        if pos < 0 {
            0
        } else if pos > self.content.len() {
            self.content.len()
        } else {
            pos as nat
        }
    }

    pub open spec fn moved_right(self) -> EditorView {
        EditorView { cursor: self.clamp(self.cursor as int + 1), ..self }
    }

    pub open spec fn moved_left(self) -> EditorView {
        EditorView { cursor: self.clamp(self.cursor as int - 1), ..self }
    }

    /// `c` put in at the cursor, the cursor then just after it.
    pub open spec fn inserted(self, c: char) -> EditorView {
        EditorView { content: self.content.insert(self.cursor as int, c), cursor: self.cursor + 1 }
    }

    /// The character just left of the cursor removed, the cursor one to the
    /// left; nothing changes at the start of the buffer.
    pub open spec fn deleted(self) -> EditorView {
        if self.cursor == 0 {
            self
        } else {
            EditorView {
                content: self.content.take(self.cursor - 1) + self.content.skip(self.cursor as int),
                cursor: (self.cursor - 1) as nat,
            }
        }
    }
}

/// The state after a series of cursor moves, `true` for a move right and
/// `false` for a move left.
pub open spec fn moved(v: EditorView, rights: Seq<bool>) -> EditorView
    decreases rights.len(),
{
    if rights.len() == 0 {
        v
    } else {
        let w = if rights[0] {
            v.moved_right()
        } else {
            v.moved_left()
        };
        moved(w, rights.drop_first())
    }
}

/// However the cursor is moved left and right, it stays within
/// `[0, content.len()]`, and the content is left alone.
pub proof fn lemma_moves_stay_in_bounds(v: EditorView, rights: Seq<bool>)
    requires
        v.wf(),
    ensures
        moved(v, rights).wf(),
        moved(v, rights).content == v.content,
    decreases rights.len(),
{
    if rights.len() > 0 {
        let w = if rights[0] {
            v.moved_right()
        } else {
            v.moved_left()
        };
        lemma_moves_stay_in_bounds(w, rights.drop_first());
    }
}

/// Inserting a character and then deleting the one before the cursor gives
/// back the buffer and cursor as they were.
pub proof fn lemma_insert_then_delete(v: EditorView, c: char)
    requires
        v.wf(),
    ensures
        v.inserted(c).deleted() == v,
{
    let w = v.inserted(c);
    assert(w.content.take(w.cursor - 1) + w.content.skip(w.cursor as int) =~= v.content);
}

/// With the cursor at the start, deleting changes nothing.
pub proof fn lemma_delete_at_start(v: EditorView)
    requires
        v.cursor == 0,
    ensures
        v.deleted() == v,
{
}

/// A text buffer edited at a cursor.
pub struct Editor {
    cursor: usize,
    content: String,
}

impl View for Editor {
    type V = EditorView;

    closed spec fn view(&self) -> EditorView {
        EditorView { content: self.content@, cursor: self.cursor as nat }
    }
}

impl Default for Editor {
    fn default() -> (r: Self)
        ensures
            r@ == (EditorView { content: Seq::empty(), cursor: 0 }),
    {
        Editor::new()
    }
}

impl Editor {
    /// An empty buffer, the cursor at its start.
    pub fn new() -> (r: Self)
        ensures
            r@ == (EditorView { content: Seq::empty(), cursor: 0 }),
    {
        Editor { cursor: 0, content: String::new() }
    }

    pub fn content(&self) -> (r: &str)
        ensures
            r@ == self@.content,
    {
        self.content.as_str()
    }

    pub fn cursor(&self) -> (r: usize)
        ensures
            r == self@.cursor,
    {
        self.cursor
    }

    /// Byte offset in the storage of the character at the cursor.
    fn byte_index(&self) -> (r: usize)
        requires
            self@.wf(),
        ensures
            r == byte_offset(self@.content, self@.cursor as int),
    {
        let ghost s = self.content@;
        let total = self.content.as_str().as_bytes().len();
        let len = self.content.as_str().unicode_len();
        let mut idx: usize = 0;
        let mut i: usize = 0;
        for c in it: self.content.chars()
            invariant
                it.seq() == s,
                i == it.index(),
                total == encode_utf8(s).len(),
                len == s.len(),
                self.cursor <= s.len(),
                s == self.content@,
                idx == byte_offset(s, if i < self.cursor { i as int } else { self.cursor as int }),
        {
            proof {
                assert(c == s[i as int]);
            }
            if i < self.cursor {
                proof {
                    lemma_byte_offset_step(s, i as int);
                }
                idx = idx + utf8_width(c);
            }
            i = i + 1;
        }
        idx
    }

    /// Whether the cursor is at the start of the buffer.
    fn empty(&self) -> (r: bool)
        ensures
            r == (self@.cursor == 0),
    {
        self.cursor == 0
    }

    /// `pos` clamped to the number of characters.
    fn mv_cursor(&self, pos: usize) -> (r: usize)
        ensures
            r == self@.clamp(pos as int),
            self@.content.len() <= usize::MAX,
    {
        let n = self.content.as_str().unicode_len();
        if pos > n {
            n
        } else {
            pos
        }
    }

    pub fn mv_cursor_right(&mut self)
        ensures
            final(self)@ == old(self)@.moved_right(),
            final(self)@.wf(),
    {
        let movement = self.cursor.saturating_add(1);
        self.cursor = self.mv_cursor(movement);
    }

    pub fn mv_cursor_left(&mut self)
        ensures
            final(self)@ == old(self)@.moved_left(),
            final(self)@.wf(),
    {
        let movement = self.cursor.saturating_sub(1);
        self.cursor = self.mv_cursor(movement);
    }

    /// Inserts `c` at the cursor and moves the cursor past it.
    pub fn compute(&mut self, c: char)
        requires
            old(self)@.wf(),
        ensures
            final(self)@ == old(self)@.inserted(c),
            final(self)@.wf(),
    {
        let index = self.byte_index();
        insert_char_at(&mut self.content, self.cursor, index, c);
        self.mv_cursor_right();
    }

    /// Removes the character just before the cursor, if there is one, and
    /// moves the cursor back over it.
    pub fn delete(&mut self)
        requires
            old(self)@.wf(),
        ensures
            final(self)@ == old(self)@.deleted(),
            final(self)@.wf(),
    {
        if !self.empty() {
            let current = self.cursor;
            let next = current - 1;
            let ghost s = self.content@;
            let len = self.content.as_str().unicode_len();
            let mut kept = String::new();
            let mut i: usize = 0;
            for c in it: self.content.chars()
                invariant
                    it.seq() == s,
                    i == it.index(),
                    s == self.content@,
                    next + 1 == current,
                    current <= s.len(),
                    len == s.len(),
                    i <= next ==> kept@ == s.take(i as int),
                    i > next ==> kept@ == s.take(next as int) + s.subrange(
                        current as int,
                        i as int,
                    ),
            {
                proof {
                    assert(c == s[i as int]);
                }
                if i != next {
                    string_push(&mut kept, c);
                }
                proof {
                    if i < next {
                        assert(s.take(i + 1) =~= s.take(i as int).push(c));
                    } else if i == next {
                        assert(s.subrange(current as int, i + 1) =~= Seq::<char>::empty());
                        assert(kept@ =~= s.take(next as int) + s.subrange(
                            current as int,
                            i + 1,
                        ));
                    } else {
                        assert(s.subrange(current as int, i + 1) =~= s.subrange(
                            current as int,
                            i as int,
                        ).push(c));
                        assert(kept@ =~= s.take(next as int) + s.subrange(
                            current as int,
                            i + 1,
                        ));
                    }
                }
                i = i + 1;
            }
            proof {
                assert(s.subrange(current as int, s.len() as int) =~= s.skip(current as int));
            }
            self.content = kept;
            self.mv_cursor_left();
        }
    }
}

} // verus!
