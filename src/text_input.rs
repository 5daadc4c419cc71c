//! A single-line text field with a cursor, edited by value.
use crate::sentence::push_char;
use vstd::prelude::*;

verus! {

/// Text with a cursor, counted in characters from the start.
#[derive(Debug, Clone, Default, PartialEq, Eq)]
pub struct TextInput {
    text: String,
    cursor_pos: usize,
}

impl View for TextInput {
    type V = (Seq<char>, int);

    closed spec fn view(&self) -> (Seq<char>, int) {
        (self.text@, self.cursor_pos as int)
    }
}

/// The number of characters of `s`.
fn char_count(s: &String) -> (r: usize)
    requires
        s@.len() <= usize::MAX,
    ensures
        r == s@.len(),
{
    let mut n: usize = 0;
    for c in it: s.as_str().chars()
        invariant
            it.seq() == s@,
            s@.len() <= usize::MAX,
            n == it.index(),
            n <= s@.len(),
    {
        n = n + 1;
    }
    n
}

impl TextInput {
    /// The cursor lies within the text.
    pub closed spec fn wf(&self) -> bool {
        self.cursor_pos <= self.text@.len() <= usize::MAX
    }

    /// A field holding `text`, with the cursor at its end.
    pub fn new(text: String) -> (r: Self)
        requires
            text@.len() <= usize::MAX,
        ensures
            r.wf(),
            r@ == (text@, text@.len() as int),
    {
        let n = char_count(&text);
        Self { cursor_pos: n, text }
    }

    /// The text of the field.
    pub fn get_text(&self) -> (r: &String)
        ensures
            r@ == self@.0,
    {
        &self.text
    }

    /// The number of characters before the cursor.
    pub fn cursor_char_pos(&self) -> (r: usize)
        ensures
            r == self@.1,
    {
        self.cursor_pos
    }

    /// The field with `c` inserted at the cursor, and the cursor after it.
    pub fn with_insert_char(&self, c: char) -> (r: Self)
        requires
            self.wf(),
            self@.0.len() < usize::MAX,
        ensures
            r.wf(),
            r@ == (self@.0.take(self@.1) + seq![c] + self@.0.skip(self@.1), self@.1 + 1),
    {
        let ghost t = self@.0;
        let cur = self.cursor_pos;
        let mut text = String::new();
        let mut k: usize = 0;
        for d in it: self.text.as_str().chars()
            invariant
                it.seq() == t,
                t == self.text@,
                cur == self.cursor_pos,
                self.wf(),
                t.len() < usize::MAX,
                k == it.index(),
                k <= t.len(),
                text@ == (if k <= cur {
                    t.take(k as int)
                } else {
                    t.take(cur as int) + seq![c] + t.subrange(cur as int, k as int)
                }),
        {
            if k == cur {
                push_char(&mut text, c);
            }
            push_char(&mut text, d);
            proof {
                if k < cur {
                    assert(text@ =~= t.take(k + 1));
                } else {
                    assert(text@ =~= t.take(cur as int) + seq![c] + t.subrange(cur as int, k + 1));
                }
            }
            k = k + 1;
        }
        if cur == k {
            push_char(&mut text, c);
        }
        proof {
            assert(text@ =~= t.take(cur as int) + seq![c] + t.skip(cur as int));
        }
        Self { text, cursor_pos: cur + 1 }
    }

    /// The field with the character before the cursor removed, and the cursor
    /// moved back over it; unchanged at the start of the text.
    pub fn with_delete_char(&self) -> (r: Self)
        requires
            self.wf(),
        ensures
            r.wf(),
            r@ == (if self@.1 > 0 {
                (self@.0.remove(self@.1 - 1), self@.1 - 1)
            } else {
                self@
            }),
    {
        let ghost t = self@.0;
        let cur = self.cursor_pos;
        if cur == 0 {
            return self.copy();
        }
        let mut text = String::new();
        let mut k: usize = 0;
        for d in it: self.text.as_str().chars()
            invariant
                it.seq() == t,
                t == self.text@,
                cur == self.cursor_pos,
                self.wf(),
                0 < cur,
                k == it.index(),
                k <= t.len(),
                text@ == (if k < cur {
                    t.take(k as int)
                } else {
                    t.take(cur - 1) + t.subrange(cur as int, k as int)
                }),
        {
            if k + 1 != cur {
                push_char(&mut text, d);
            }
            proof {
                if k + 1 < cur {
                    assert(text@ =~= t.take(k + 1));
                } else if k + 1 == cur {
                    assert(t.take(k as int) =~= t.take(cur - 1) + t.subrange(cur as int, k + 1));
                } else {
                    assert(text@ =~= t.take(cur - 1) + t.subrange(cur as int, k + 1));
                }
            }
            k = k + 1;
        }
        proof {
            assert(text@ =~= t.remove(cur - 1));
        }
        Self { text, cursor_pos: cur - 1 }
    }

    /// The field with the cursor one character to the left, if it can move.
    pub fn with_move_left(&self) -> (r: Self)
        requires
            self.wf(),
        ensures
            r.wf(),
            r@ == (self@.0, if self@.1 > 0 { self@.1 - 1 } else { self@.1 }),
    {
        let mut ti = self.copy();
        if ti.cursor_pos > 0 {
            ti.cursor_pos = ti.cursor_pos - 1;
        }
        ti
    }

    /// The field with the cursor one character to the right, if it can move.
    pub fn with_move_right(&self) -> (r: Self)
        requires
            self.wf(),
        ensures
            r.wf(),
            r@ == (self@.0, if self@.1 < self@.0.len() { self@.1 + 1 } else { self@.1 }),
    {
        let mut ti = self.copy();
        let n = char_count(&ti.text);
        if ti.cursor_pos < n {
            ti.cursor_pos = ti.cursor_pos + 1;
        }
        ti
    }

    pub(crate) fn copy(&self) -> (r: Self)
        ensures
            r == *self,
    {
        Self { text: self.text.clone(), cursor_pos: self.cursor_pos }
    }
}

} // verus!
