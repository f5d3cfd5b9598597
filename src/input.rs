//! A line of keyboard input being edited: the characters and a cursor.
use vstd::prelude::*;
use crate::text::push_char;

verus! {

/// The characters with the Unicode White_Space property.
pub open spec fn is_space(c: char) -> bool {
    c == '\u{9}' || c == '\u{a}' || c == '\u{b}' || c == '\u{c}' || c == '\u{d}' || c == ' '
        || c == '\u{85}' || c == '\u{a0}' || c == '\u{1680}' || c == '\u{2000}' || c == '\u{2001}'
        || c == '\u{2002}' || c == '\u{2003}' || c == '\u{2004}' || c == '\u{2005}' || c
        == '\u{2006}' || c == '\u{2007}' || c == '\u{2008}' || c == '\u{2009}' || c == '\u{200a}'
        || c == '\u{2028}' || c == '\u{2029}' || c == '\u{202f}' || c == '\u{205f}' || c
        == '\u{3000}'
}

/// `s` without its leading white space.
pub open spec fn trim_front(s: Seq<char>) -> Seq<char>
    decreases s.len(),
{
    if s.len() > 0 && is_space(s[0]) {
        trim_front(s.drop_first())
    } else {
        s
    }
}

/// `s` without its trailing white space.
pub open spec fn trim_back(s: Seq<char>) -> Seq<char>
    decreases s.len(),
{
    if s.len() > 0 && is_space(s.last()) {
        trim_back(s.drop_last())
    } else {
        s
    }
}

/// `s` without leading and trailing white space.
pub open spec fn trim(s: Seq<char>) -> Seq<char> {
    trim_back(trim_front(s))
}

/// The character has the Unicode White_Space property.
pub fn is_space_char(c: char) -> (r: bool)
    ensures
        r == is_space(c),
{
    match c {
        '\u{9}' | '\u{a}' | '\u{b}' | '\u{c}' | '\u{d}' | ' ' | '\u{85}' | '\u{a0}' | '\u{1680}'
        | '\u{2000}' | '\u{2001}' | '\u{2002}' | '\u{2003}' | '\u{2004}' | '\u{2005}'
        | '\u{2006}' | '\u{2007}' | '\u{2008}' | '\u{2009}' | '\u{200a}' | '\u{2028}'
        | '\u{2029}' | '\u{202f}' | '\u{205f}' | '\u{3000}' => true,
        _ => false,
    }
}

/// The characters of `s` without leading and trailing white space.
pub fn trimmed(s: &Vec<char>) -> (r: String)
    ensures
        r@ == trim(s@),
{
    let n = s.len();
    let mut i: usize = 0;
    proof {
        assert(s@.skip(0) =~= s@);
    }
    while i < n && is_space_char(s[i])
        invariant
            i <= n == s.len(),
            trim_front(s@) == trim_front(s@.skip(i as int)),
        decreases n - i,
    {
        proof {
            assert(s@.skip(i as int).drop_first() =~= s@.skip(i + 1));
        }
        i = i + 1;
    }
    let ghost t = s@.skip(i as int);
    proof {
        assert(trim_front(s@) == t);
        assert(t.take(t.len() as int) =~= t);
    }
    let mut j: usize = n;
    while j > i && is_space_char(s[j - 1])
        invariant
            i <= j <= n == s.len(),
            t == s@.skip(i as int),
            trim_back(t) == trim_back(t.take(j - i)),
        decreases j,
    {
        proof {
            assert(t.take(j - i).drop_last() =~= t.take(j - i - 1));
        }
        j = j - 1;
    }
    let mut r = String::new();
    let mut k: usize = i;
    while k < j
        invariant
            i <= k <= j <= n == s.len(),
            r@ =~= s@.subrange(i as int, k as int),
        decreases j - k,
    {
        push_char(&mut r, s[k]);
        k = k + 1;
    }
    proof {
        assert(t.take(j - i) =~= s@.subrange(i as int, j as int));
    }
    r
}

/// The characters typed so far and the cursor, which stands between two of
/// them or at either end.
#[derive(Debug)]
pub struct InputBuffer {
    pub buffer: Vec<char>,
    pub cursor: usize,
}

impl InputBuffer {
    pub open spec fn wf(&self) -> bool {
        self.cursor <= self.buffer@.len()
    }

    /// An empty line.
    pub fn new() -> (r: Self)
        ensures
            r.buffer@ == Seq::<char>::empty(),
            r.cursor == 0,
    {
        InputBuffer { buffer: Vec::new(), cursor: 0 }
    }

    /// Empties the line.
    pub fn clear(&mut self)
        ensures
            final(self).buffer@ == Seq::<char>::empty(),
            final(self).cursor == 0,
    {
        self.buffer.clear();
        self.cursor = 0;
    }

    /// The line as typed; the buffer is emptied.
    pub fn take_raw(&mut self) -> (r: String)
        ensures
            r@ == old(self).buffer@,
            final(self).buffer@ == Seq::<char>::empty(),
            final(self).cursor == 0,
    {
        let mut r = String::new();
        let mut k: usize = 0;
        while k < self.buffer.len()
            invariant
                k <= self.buffer.len(),
                r@ =~= self.buffer@.take(k as int),
            decreases self.buffer.len() - k,
        {
            push_char(&mut r, self.buffer[k]);
            k = k + 1;
        }
        proof {
            assert(self.buffer@.take(self.buffer@.len() as int) =~= self.buffer@);
        }
        self.clear();
        r
    }

    /// The line without leading and trailing white space; the buffer is emptied.
    pub fn take_trimmed(&mut self) -> (r: String)
        ensures
            r@ == trim(old(self).buffer@),
            final(self).buffer@ == Seq::<char>::empty(),
            final(self).cursor == 0,
    {
        let r = trimmed(&self.buffer);
        self.clear();
        r
    }

    /// The line without leading and trailing white space.
    pub fn peak_trimmed(&self) -> (r: String)
        ensures
            r@ == trim(self.buffer@),
    {
        trimmed(&self.buffer)
    }

    /// The line holds nothing but white space.
    pub fn is_only_whitespace(&self) -> (r: bool)
        ensures
            r == (trim(self.buffer@).len() == 0),
    {
        let t = trimmed(&self.buffer);
        t.unicode_len() == 0
    }

    /// Types a character at the cursor, which moves past it.
    pub fn insert_char(&mut self, ch: char)
        requires
            old(self).wf(),
            old(self).cursor < usize::MAX,
        ensures
            final(self).buffer@ == old(self).buffer@.insert(old(self).cursor as int, ch),
            final(self).cursor == old(self).cursor + 1,
            final(self).wf(),
    {
        self.buffer.insert(self.cursor, ch);
        self.cursor = self.cursor + 1;
    }

    /// Deletes the character before the cursor, if there is one.
    pub fn backspace(&mut self)
        requires
            old(self).wf(),
        ensures
            old(self).cursor > 0 ==> final(self).buffer@ == old(self).buffer@.remove(
                old(self).cursor - 1,
            ) && final(self).cursor == old(self).cursor - 1,
            old(self).cursor == 0 ==> final(self).buffer@ == old(self).buffer@ && final(self).cursor
                == 0,
            final(self).wf(),
    {
        if self.cursor > 0 {
            self.buffer.remove(self.cursor - 1);
            self.cursor = self.cursor - 1;
        }
    }

    /// Deletes the character after the cursor, if there is one.
    pub fn delete(&mut self)
        requires
            old(self).wf(),
        ensures
            old(self).cursor < old(self).buffer@.len() ==> final(self).buffer@ == old(
                self,
            ).buffer@.remove(old(self).cursor as int),
            old(self).cursor == old(self).buffer@.len() ==> final(self).buffer@ == old(
                self,
            ).buffer@,
            final(self).cursor == old(self).cursor,
            final(self).wf(),
    {
        if self.cursor < self.buffer.len() {
            self.buffer.remove(self.cursor);
        }
    }

    /// Moves the cursor to the start of the line.
    pub fn jump_start(&mut self)
        ensures
            final(self).buffer@ == old(self).buffer@,
            final(self).cursor == 0,
    {
        self.cursor = 0;
    }

    /// Moves the cursor to the end of the line.
    pub fn jump_end(&mut self)
        ensures
            final(self).buffer@ == old(self).buffer@,
            final(self).cursor == old(self).buffer@.len(),
    {
        self.cursor = self.buffer.len();
    }

    /// Moves the cursor one character left, unless it is at the start.
    pub fn left_char(&mut self)
        ensures
            final(self).buffer@ == old(self).buffer@,
            final(self).cursor == if old(self).cursor > 0 {
                (old(self).cursor - 1) as usize
            } else {
                0
            },
    {
        if self.cursor > 0 {
            self.cursor = self.cursor - 1;
        }
    }

    /// Moves the cursor one character right, unless it is at the end.
    pub fn right_char(&mut self)
        ensures
            final(self).buffer@ == old(self).buffer@,
            final(self).cursor == if old(self).cursor < old(self).buffer@.len() {
                (old(self).cursor + 1) as usize
            } else {
                old(self).cursor
            },
    {
        if self.cursor < self.buffer.len() {
            self.cursor = self.cursor + 1;
        }
    }
}

} // verus!
