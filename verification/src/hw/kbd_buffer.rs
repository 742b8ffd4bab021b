//! The keyboard buffer: a ring of characters typed but not yet read. Input
//! that arrives while it is full is dropped.
use vstd::prelude::*;

verus! {

/// Slots in the ring; one always stays free, so it holds one character less.
pub const BUF_SIZE: usize = 128;

struct Inner {
    buf: [char; 128],
    head: usize,
    tail: usize,
}

impl Inner {
    spec fn wf(&self) -> bool {
        self.head < BUF_SIZE && self.tail < BUF_SIZE
    }

    /// Characters held, oldest first.
    spec fn contents(&self) -> Seq<char> {
        Seq::new(((self.head - self.tail) % 128) as nat, |i: int| self.buf[(self.tail + i) % 128])
    }

    fn new() -> (s: Self)
        ensures
            s.wf(),
            s.contents() == Seq::<char>::empty(),
    {
        let s = Inner { buf: ['\0'; 128], head: 0, tail: 0 };
        assert(s.contents() =~= Seq::<char>::empty());
        s
    }

    fn is_empty(&self) -> (r: bool)
        requires
            self.wf(),
        ensures
            r == (self.contents().len() == 0),
    {
        self.head == self.tail
    }

    fn is_full(&self) -> (r: bool)
        requires
            self.wf(),
        ensures
            r == (self.contents().len() == BUF_SIZE - 1),
    {
        (self.head + 1) % BUF_SIZE == self.tail
    }

    fn push(&mut self, c: char)
        requires
            old(self).wf(),
        ensures
            final(self).wf(),
            final(self).contents() == (if old(self).contents().len() < BUF_SIZE - 1 {
                old(self).contents().push(c)
            } else {
                old(self).contents()
            }),
    {
        if self.is_full() {
            return;
        }
        let ghost before = self.contents();
        let ghost t = self.tail as int;
        let ghost h = self.head as int;
        self.buf[self.head] = c;
        self.head = (self.head + 1) % BUF_SIZE;
        proof {
            assert(self.contents().len() == before.len() + 1);
            assert forall|i: int| 0 <= i < before.len() implies #[trigger] self.contents()[i] == before[i] by {
                assert((t + i) % 128 != h);
            }
            assert(self.contents()[before.len() as int] == c);
            assert(self.contents() =~= before.push(c));
        }
    }

    fn pop(&mut self) -> (r: Option<char>)
        requires
            old(self).wf(),
        ensures
            final(self).wf(),
            old(self).contents().len() == 0 ==> r is None && final(self).contents() == old(self).contents(),
            old(self).contents().len() > 0 ==> r == Some(old(self).contents()[0])
                && final(self).contents() == old(self).contents().drop_first(),
    {
        if self.is_empty() {
            return None;
        }
        let ghost before = self.contents();
        let c = self.buf[self.tail];
        self.tail = (self.tail + 1) % BUF_SIZE;
        proof {
            assert(self.contents() =~= before.drop_first());
        }
        Some(c)
    }
}

/// The keyboard buffer. Callers keep interrupts off around each operation.
pub struct KeyBuffer {
    inner: Inner,
}

impl KeyBuffer {
    pub closed spec fn wf(&self) -> bool {
        self.inner.wf()
    }

    /// Characters held, oldest first.
    pub closed spec fn contents(&self) -> Seq<char> {
        self.inner.contents()
    }

    /// An empty buffer.
    pub fn new() -> (b: Self)
        ensures
            b.wf(),
            b.contents() == Seq::<char>::empty(),
    {
        KeyBuffer { inner: Inner::new() }
    }

    /// Append `c`; it is dropped when the buffer already holds `BUF_SIZE - 1` characters.
    pub fn push(&mut self, c: char)
        requires
            old(self).wf(),
        ensures
            final(self).wf(),
            pushed(old(self).contents(), final(self).contents(), c),
    {
        self.inner.push(c)
    }

    /// Take the oldest character, if any.
    pub fn pop(&mut self) -> (r: Option<char>)
        requires
            old(self).wf(),
        ensures
            final(self).wf(),
            popped(old(self).contents(), final(self).contents(), r),
    {
        self.inner.pop()
    }

    /// Whether no character is held.
    pub fn is_empty(&self) -> (r: bool)
        requires
            self.wf(),
        ensures
            r == (self.contents().len() == 0),
    {
        self.inner.is_empty()
    }
}

/// `new` is `old` after pushing `c`: appended, unless the buffer was full.
pub open spec fn pushed(old: Seq<char>, new: Seq<char>, c: char) -> bool {
    new == (if old.len() < BUF_SIZE - 1 { old.push(c) } else { old })
}

/// `new` is `old` after a pop that returned `r`: the oldest character, if any.
pub open spec fn popped(old: Seq<char>, new: Seq<char>, r: Option<char>) -> bool {
    if old.len() == 0 { r is None && new == old } else { r == Some(old[0]) && new == old.drop_first() }
}

/// Characters leave the keyboard buffer in the order they came in: two
/// characters pushed onto an empty buffer are popped back in that order,
/// leaving it empty.
pub proof fn lemma_key_buffer_fifo(s0: Seq<char>, s1: Seq<char>, s2: Seq<char>, s3: Seq<char>, s4: Seq<char>,
    a: char, b: char, r1: Option<char>, r2: Option<char>)
    requires
        s0.len() == 0,
        pushed(s0, s1, a),
        pushed(s1, s2, b),
        popped(s2, s3, r1),
        popped(s3, s4, r2),
    ensures
        r1 == Some(a),
        r2 == Some(b),
        s4.len() == 0,
{
    assert(s2 =~= seq![a, b]);
    assert(s3 =~= seq![b]);
}

} // verus!
