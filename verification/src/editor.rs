//! The text editor's buffer: a byte string with a cursor, edited one
//! character at a time.
use vstd::prelude::*;
use crate::fmt::{dec_digits, push_dec};
use crate::fs::{file_index, RamFS};

verus! {

/// Bytes the buffer can hold; the text stays one shorter.
pub const EDITOR_CAPACITY: usize = 8192;

pub struct Editor {
    pub buffer: [u8; 8192],
    pub length: usize,
    pub cursor: usize,
    pub filename: [char; 16],
    pub is_dirty: bool,
}

impl Editor {
    /// The cursor lies within the text, the text leaves the last byte free,
    /// and every byte past the text is zero.
    pub open spec fn wf(&self) -> bool {
        &&& self.cursor <= self.length
        &&& self.length < EDITOR_CAPACITY
        &&& forall|i: int| self.length <= i < EDITOR_CAPACITY ==> #[trigger] self.buffer[i] == 0
    }

    /// The text being edited.
    pub open spec fn text(&self) -> Seq<u8> {
        self.buffer@.subrange(0, self.length as int)
    }

    /// An empty, unmodified buffer with no file name.
    pub fn new() -> (e: Self)
        ensures
            e.wf(),
            e.text() == Seq::<u8>::empty(),
            e.cursor == 0 && !e.is_dirty,
            forall|i: int| 0 <= i < 16 ==> #[trigger] e.filename[i] == '\0',
    {
        let e = Editor { buffer: [0u8; 8192], length: 0, cursor: 0, filename: ['\0'; 16], is_dirty: false };
        assert(e.text() =~= Seq::<u8>::empty());
        e
    }

    /// Insert the low byte of `c` at the cursor and move the cursor past it;
    /// nothing happens when the text is already `EDITOR_CAPACITY - 1` bytes long.
    pub fn insert_char(&mut self, c: char)
        requires
            old(self).wf(),
        ensures
            inserted(*old(self), *final(self), c),
    {
        if self.length < 8191 {
            let ghost t0 = self.text();
            let ghost b0 = self.buffer@;
            let mut i: usize = self.length;
            while i > self.cursor
                invariant
                    self.cursor <= i <= self.length < 8191,
                    self.length == old(self).length && self.cursor == old(self).cursor,
                    self.filename == old(self).filename,
                    b0.len() == 8192,
                    forall|j: int| 0 <= j <= i ==> #[trigger] self.buffer[j] == b0[j],
                    forall|j: int| i < j <= self.length ==> #[trigger] self.buffer[j] == b0[j - 1],
                    forall|j: int| self.length < j < 8192 ==> #[trigger] self.buffer[j] == b0[j],
                decreases i,
            {
                self.buffer[i] = self.buffer[i - 1];
                i = i - 1;
            }
            let b = (c as u32) as u8;
            self.buffer[self.cursor] = b;
            self.cursor = self.cursor + 1;
            self.length = self.length + 1;
            self.is_dirty = true;
            proof {
                assert(self.text() =~= t0.insert(old(self).cursor as int, b));
            }
        }
    }

    /// Remove the byte before the cursor and move the cursor back over it;
    /// nothing happens at the start of the text.
    pub fn delete_char(&mut self)
        requires
            old(self).wf(),
        ensures
            deleted(*old(self), *final(self)),
    {
        if self.cursor > 0 {
            let ghost t0 = self.text();
            let ghost b0 = self.buffer@;
            let mut i: usize = self.cursor;
            while i < self.length
                invariant
                    0 < self.cursor <= i <= self.length < 8192,
                    self.length == old(self).length && self.cursor == old(self).cursor,
                    self.filename == old(self).filename,
                    b0.len() == 8192,
                    forall|j: int| 0 <= j < self.cursor - 1 ==> #[trigger] self.buffer[j] == b0[j],
                    forall|j: int| self.cursor - 1 <= j < i - 1 ==> #[trigger] self.buffer[j] == b0[j + 1],
                    forall|j: int| i - 1 <= j < 8192 ==> #[trigger] self.buffer[j] == b0[j] || j == i - 1,
                    forall|j: int| i <= j < 8192 ==> #[trigger] self.buffer[j] == b0[j],
                decreases self.length - i,
            {
                self.buffer[i - 1] = self.buffer[i];
                i = i + 1;
            }
            self.cursor = self.cursor - 1;
            self.length = self.length - 1;
            self.buffer[self.length] = 0;
            self.is_dirty = true;
            proof {
                assert(self.text() =~= t0.remove(old(self).cursor - 1));
            }
        }
    }

    /// Move the cursor one byte back, unless it is at the start.
    pub fn move_cursor_left(&mut self)
        requires
            old(self).wf(),
        ensures
            final(self).wf(),
            final(self).cursor == (if old(self).cursor > 0 { old(self).cursor - 1 } else { 0 }),
            final(self).buffer == old(self).buffer && final(self).length == old(self).length,
            final(self).filename == old(self).filename && final(self).is_dirty == old(self).is_dirty,
    {
        if self.cursor > 0 {
            self.cursor = self.cursor - 1;
        }
    }

    /// Move the cursor one byte forward, unless it is at the end.
    pub fn move_cursor_right(&mut self)
        requires
            old(self).wf(),
        ensures
            final(self).wf(),
            final(self).cursor == (if old(self).cursor < old(self).length { old(self).cursor + 1 } else { old(self).cursor as int }),
            final(self).buffer == old(self).buffer && final(self).length == old(self).length,
            final(self).filename == old(self).filename && final(self).is_dirty == old(self).is_dirty,
    {
        if self.cursor < self.length {
            self.cursor = self.cursor + 1;
        }
    }
}

/// `new` is `old` after typing `c`: its low byte inserted at the cursor and
/// the cursor past it, unless the text was full.
pub open spec fn inserted(old: Editor, new: Editor, c: char) -> bool {
    &&& new.wf()
    &&& new.filename == old.filename
    &&& old.length < EDITOR_CAPACITY - 1 ==> {
        &&& new.text() == old.text().insert(old.cursor as int, c as u32 as u8)
        &&& new.cursor == old.cursor + 1
        &&& new.is_dirty
    }
    &&& old.length >= EDITOR_CAPACITY - 1 ==> new == old
}

/// `new` is `old` after a backspace: the byte before the cursor removed and
/// the cursor moved back, unless the cursor was at the start.
pub open spec fn deleted(old: Editor, new: Editor) -> bool {
    &&& new.wf()
    &&& new.filename == old.filename
    &&& old.cursor > 0 ==> {
        &&& new.text() == old.text().remove(old.cursor - 1)
        &&& new.cursor == old.cursor - 1
        &&& new.is_dirty
    }
    &&& old.cursor == 0 ==> new == old
}

/// Typing a character and then deleting it leaves the text and the cursor as
/// they were, whenever the text had room for the character.
pub proof fn lemma_insert_then_delete(e0: Editor, e1: Editor, e2: Editor, c: char)
    requires
        e0.wf(),
        e0.length < EDITOR_CAPACITY - 1,
        inserted(e0, e1, c),
        deleted(e1, e2),
    ensures
        e2.text() == e0.text(),
        e2.cursor == e0.cursor,
{
    assert(e0.text().insert(e0.cursor as int, c as u32 as u8).remove(e0.cursor as int) =~= e0.text());
}


/// Bytes of text a save keeps.
pub const SAVE_LIMIT: usize = 2048;

/// Length of the file name held in `f`: the characters before the first NUL.
pub open spec fn name_len(f: Seq<char>) -> int
    decreases f.len(),
{
    if f.len() == 0 { 0 } else if f[0] == '\0' { 0 } else { 1 + name_len(f.drop_first()) }
}

/// The file name held in `f`.
pub open spec fn name_of(f: Seq<char>) -> Seq<char> {
    f.take(name_len(f))
}

proof fn lemma_name_len(f: Seq<char>, i: int)
    requires
        0 <= i <= f.len(),
        forall|j: int| 0 <= j < i ==> f[j] != '\0',
        i < f.len() ==> f[i] == '\0',
    ensures
        name_len(f) == i,
    decreases i,
{
    if i > 0 {
        lemma_name_len(f.drop_first(), i - 1);
    }
}

/// The editor's status line: the file, the cursor position, whether there are
/// unsaved changes, and the keys.
pub open spec fn status_line(e: Editor) -> Seq<char> {
    " FILE: "@ + name_of(e.filename@) + " | POS: "@ + dec_digits(e.cursor as nat).map_values(|b: u8| b as char)
        + " | "@ + (if e.is_dirty { "MODIFIED"@ } else { "SAVED"@ }) + " | F1: Save | ESC: Exit"@
}

fn push_str_chars(out: &mut Vec<char>, s: &str)
    requires
        s.is_ascii(),
    ensures
        final(out)@ == old(out)@ + s@,
{
    let n = s.unicode_len();
    let mut i: usize = 0;
    while i < n
        invariant
            n == s@.len(),
            i <= n,
            s.is_ascii(),
            out@ == old(out)@ + s@.subrange(0, i as int),
        decreases n - i,
    {
        out.push(s.get_char(i));
        i = i + 1;
        assert(out@ =~= old(out)@ + s@.subrange(0, i as int));
    }
    assert(s@.subrange(0, n as int) =~= s@);
}

impl Editor {
    /// Number of characters of the file name: those before the first NUL.
    pub fn name_len(&self) -> (n: usize)
        ensures
            n == name_len(self.filename@),
            n <= 16,
    {
        let mut i: usize = 0;
        while i < 16 && self.filename[i] != '\0'
            invariant
                i <= 16,
                forall|j: int| 0 <= j < i ==> self.filename@[j] != '\0',
            decreases 16 - i,
        {
            i = i + 1;
        }
        proof { lemma_name_len(self.filename@, i as int); }
        i
    }

    /// The file name, as characters.
    pub fn name_chars(&self) -> (name: Vec<char>)
        ensures
            name@ == name_of(self.filename@),
    {
        let n = self.name_len();
        let mut name: Vec<char> = Vec::new();
        let mut k: usize = 0;
        while k < n
            invariant
                n <= 16,
                n == name_len(self.filename@),
                k <= n,
                name@ == self.filename@.take(k as int),
            decreases n - k,
        {
            name.push(self.filename[k]);
            k = k + 1;
            assert(name@ =~= self.filename@.take(k as int));
        }
        name
    }

    /// The bytes a save stores: the text, at most `SAVE_LIMIT` bytes of it.
    pub fn saved_bytes(&self) -> (data: Vec<u8>)
        requires
            self.wf(),
        ensures
            data@ == self.text().take(if self.length < SAVE_LIMIT { self.length as int } else { SAVE_LIMIT as int }),
    {
        let save_len = if self.length > SAVE_LIMIT { SAVE_LIMIT } else { self.length };
        let mut data: Vec<u8> = Vec::new();
        let mut i: usize = 0;
        while i < save_len
            invariant
                save_len <= self.length < 8192,
                i <= save_len,
                data@ == self.buffer@.take(i as int),
            decreases save_len - i,
        {
            data.push(self.buffer[i]);
            i = i + 1;
            assert(data@ =~= self.buffer@.take(i as int));
        }
        assert(data@ =~= self.text().take(save_len as int));
        data
    }

    /// Store the text, at most `SAVE_LIMIT` bytes of it, as the whole contents
    /// of the file named by the editor, and mark the text saved. `false`, with
    /// nothing changed, when no such file exists.
    pub fn save_to_fs(&mut self, fs: &mut RamFS) -> (r: bool)
        requires
            old(self).wf(),
        ensures
            final(self).wf(),
            r == file_index(old(fs).files@, name_of(old(self).filename@)) is Some,
            final(self).buffer == old(self).buffer && final(self).length == old(self).length,
            final(self).cursor == old(self).cursor && final(self).filename == old(self).filename,
            final(self).is_dirty == (old(self).is_dirty && !r),
            !r ==> final(fs).files@ == old(fs).files@,
            r ==> ({
                let i = file_index(old(fs).files@, name_of(old(self).filename@))->0;
                let n = if old(self).length < SAVE_LIMIT { old(self).length as int } else { SAVE_LIMIT as int };
                &&& 0 <= i < old(fs).files@.len()
                &&& final(fs).files@.len() == old(fs).files@.len()
                &&& final(fs).files@[i].name@ == old(fs).files@[i].name@
                &&& final(fs).files@[i].data@ == old(self).text().take(n)
                &&& forall|j: int| 0 <= j < old(fs).files@.len() && j != i ==> final(fs).files@[j] == old(fs).files@[j]
            }),
    {
        let name = self.name_chars();
        let data = self.saved_bytes();
        if fs.set_contents(name.as_slice(), data) {
            self.is_dirty = false;
            true
        } else {
            false
        }
    }

    /// The status line shown under the text.
    pub fn status_text(&self) -> (line: Vec<char>)
        ensures
            line@ == status_line(*self),
    {
        let mut out: Vec<char> = Vec::new();
        proof { reveal_strlit(" FILE: "); }
        push_str_chars(&mut out, " FILE: ");
        let n = self.name_len();
        let mut k: usize = 0;
        while k < n
            invariant
                n <= 16,
                k <= n,
                out@ == " FILE: "@ + self.filename@.take(k as int),
            decreases n - k,
        {
            out.push(self.filename[k]);
            k = k + 1;
            assert(out@ =~= " FILE: "@ + self.filename@.take(k as int));
        }
        proof { reveal_strlit(" | POS: "); }
        push_str_chars(&mut out, " | POS: ");
        let mut digits: Vec<u8> = Vec::new();
        push_dec(&mut digits, self.cursor as u64);
        let ghost before = out@;
        let mut d: usize = 0;
        while d < digits.len()
            invariant
                d <= digits@.len(),
                out@ == before + digits@.take(d as int).map_values(|b: u8| b as char),
            decreases digits@.len() - d,
        {
            out.push(digits[d] as char);
            d = d + 1;
            assert(out@ =~= before + digits@.take(d as int).map_values(|b: u8| b as char));
        }
        proof { reveal_strlit(" | "); }
        push_str_chars(&mut out, " | ");
        if self.is_dirty {
            proof { reveal_strlit("MODIFIED"); }
            push_str_chars(&mut out, "MODIFIED");
        } else {
            proof { reveal_strlit("SAVED"); }
            push_str_chars(&mut out, "SAVED");
        }
        proof { reveal_strlit(" | F1: Save | ESC: Exit"); }
        push_str_chars(&mut out, " | F1: Save | ESC: Exit");
        proof {
            assert(digits@.take(digits@.len() as int) =~= digits@);
            assert(out@ =~= status_line(*self));
        }
        out
    }
}

} // verus!
