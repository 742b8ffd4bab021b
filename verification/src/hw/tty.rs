//! The terminal line discipline: typed bytes collect in a line that can be
//! edited with backspace; Enter commits the line, with a newline, to the
//! cooked queue that readers take from.
use vstd::prelude::*;

verus! {

/// Slots in the cooked ring; one always stays free.
pub const COOKED_CAPACITY: usize = 1024;
/// Bytes an uncommitted line can hold.
pub const LINE_CAPACITY: usize = 256;

struct Inner {
    cooked: [u8; 1024],
    cooked_head: usize,
    cooked_tail: usize,
    line: [u8; 256],
    line_len: usize,
}

/// What the terminal echoes for a byte of input.
#[derive(Clone, Copy, PartialEq, Eq, Structural, Debug)]
pub enum Echo {
    /// Nothing to echo.
    Quiet,
    Byte(u8),
    Backspace,
    Newline,
}

/// `q` after pushing each byte of `s` in turn, each dropped when `q` is full.
pub open spec fn push_all(q: Seq<u8>, s: Seq<u8>) -> Seq<u8> {
    let room = COOKED_CAPACITY - 1 - q.len();
    if s.len() <= room { q + s } else { q + s.take(room) }
}

/// Number of bytes a read of up to `count` bytes takes from `q`: up to and
/// including the first newline, and no more than are held.
pub open spec fn read_len(q: Seq<u8>, count: nat) -> nat
    decreases count,
{
    if count == 0 || q.len() == 0 {
        0
    } else if q[0] == 10u8 {
        1
    } else {
        1 + read_len(q.drop_first(), (count - 1) as nat)
    }
}

impl Inner {
    spec fn wf(&self) -> bool {
        self.cooked_head < COOKED_CAPACITY && self.cooked_tail < COOKED_CAPACITY && self.line_len <= LINE_CAPACITY
    }

    spec fn cooked_view(&self) -> Seq<u8> {
        Seq::new(((self.cooked_head - self.cooked_tail) % 1024) as nat, |i: int| self.cooked[(self.cooked_tail + i) % 1024])
    }

    spec fn line_view(&self) -> Seq<u8> {
        self.line@.subrange(0, self.line_len as int)
    }

    fn new() -> (s: Self)
        ensures
            s.wf(),
            s.cooked_view() == Seq::<u8>::empty(),
            s.line_view() == Seq::<u8>::empty(),
    {
        let s = Inner { cooked: [0u8; 1024], cooked_head: 0, cooked_tail: 0, line: [0u8; 256], line_len: 0 };
        assert(s.cooked_view() =~= Seq::<u8>::empty());
        assert(s.line_view() =~= Seq::<u8>::empty());
        s
    }

    fn cooked_is_empty(&self) -> (r: bool)
        requires
            self.wf(),
        ensures
            r == (self.cooked_view().len() == 0),
    {
        self.cooked_head == self.cooked_tail
    }

    fn cooked_is_full(&self) -> (r: bool)
        requires
            self.wf(),
        ensures
            r == (self.cooked_view().len() == COOKED_CAPACITY - 1),
    {
        (self.cooked_head + 1) % COOKED_CAPACITY == self.cooked_tail
    }

    fn cooked_push(&mut self, byte: u8)
        requires
            old(self).wf(),
        ensures
            final(self).wf(),
            final(self).cooked_view() == push_all(old(self).cooked_view(), seq![byte]),
            final(self).line == old(self).line && final(self).line_len == old(self).line_len,
    {
        if self.cooked_is_full() {
            assert(push_all(old(self).cooked_view(), seq![byte]) =~= old(self).cooked_view());
            return;
        }
        let ghost before = self.cooked_view();
        let ghost t = self.cooked_tail as int;
        let ghost h = self.cooked_head as int;
        self.cooked[self.cooked_head] = byte;
        self.cooked_head = (self.cooked_head + 1) % COOKED_CAPACITY;
        proof {
            assert(self.cooked_view().len() == before.len() + 1);
            assert forall|i: int| 0 <= i < before.len() implies #[trigger] self.cooked_view()[i] == before[i] by {
                assert((t + i) % 1024 != h);
            }
            assert(self.cooked_view() =~= before.push(byte));
            assert(push_all(before, seq![byte]) =~= before.push(byte));
        }
    }

    fn cooked_pop(&mut self) -> (r: Option<u8>)
        requires
            old(self).wf(),
        ensures
            final(self).wf(),
            old(self).cooked_view().len() == 0 ==> r is None && final(self).cooked_view() == old(self).cooked_view(),
            old(self).cooked_view().len() > 0 ==> r == Some(old(self).cooked_view()[0])
                && final(self).cooked_view() == old(self).cooked_view().drop_first(),
            final(self).line == old(self).line && final(self).line_len == old(self).line_len,
    {
        if self.cooked_is_empty() {
            return None;
        }
        let ghost before = self.cooked_view();
        let byte = self.cooked[self.cooked_tail];
        self.cooked_tail = (self.cooked_tail + 1) % COOKED_CAPACITY;
        proof {
            assert(self.cooked_view() =~= before.drop_first());
        }
        Some(byte)
    }

    /// Move the line, then a newline, into the cooked queue, and empty the line.
    fn commit_line(&mut self)
        requires
            old(self).wf(),
        ensures
            final(self).wf(),
            final(self).cooked_view() == push_all(old(self).cooked_view(), old(self).line_view().push(10u8)),
            final(self).line_len == 0,
    {
        let ghost q0 = self.cooked_view();
        let ghost l = self.line_view();
        let mut i: usize = 0;
        while i < self.line_len
            invariant
                self.wf(),
                i <= self.line_len,
                self.line == old(self).line && self.line_len == old(self).line_len,
                l == self.line_view(),
                self.cooked_view() == push_all(q0, l.take(i as int)),
            decreases self.line_len - i,
        {
            let ghost q = self.cooked_view();
            let b = self.line[i];
            self.cooked_push(b);
            proof {
                assert(l.take(i + 1) =~= l.take(i as int).push(b));
                let room = COOKED_CAPACITY - 1 - q0.len();
                if i < room {
                    assert(push_all(q0, l.take(i as int)) =~= q0 + l.take(i as int));
                    assert(push_all(q0, l.take(i + 1)) =~= q0 + l.take(i + 1));
                    assert(push_all(q, seq![b]) =~= q.push(b));
                } else {
                    assert(push_all(q0, l.take(i as int)) =~= q0 + l.take(room));
                    assert(push_all(q0, l.take(i + 1)) =~= q0 + l.take(room));
                    assert(push_all(q, seq![b]) =~= q);
                }
            }
            i = i + 1;
        }
        let ghost q = self.cooked_view();
        self.cooked_push(10u8);
        proof {
            assert(l.take(self.line_len as int) =~= l);
            let room = COOKED_CAPACITY - 1 - q0.len();
            let s = l.push(10u8);
            if l.len() < room {
                assert(push_all(q0, s) =~= q0 + s);
                assert(push_all(q, seq![10u8]) =~= q.push(10u8));
            } else {
                assert(push_all(q0, s) =~= q0 + l.take(room));
                assert(push_all(q0, l) =~= q0 + l.take(room));
                assert(push_all(q, seq![10u8]) =~= q);
            }
        }
        self.line_len = 0;
    }
}

/// The terminal. Callers keep interrupts off around each operation.
pub struct Tty {
    inner: Inner,
}

impl Tty {
    pub closed spec fn wf(&self) -> bool {
        self.inner.wf()
    }

    /// Committed bytes not yet read, oldest first.
    pub closed spec fn cooked(&self) -> Seq<u8> {
        self.inner.cooked_view()
    }

    /// The line being typed.
    pub closed spec fn line(&self) -> Seq<u8> {
        self.inner.line_view()
    }

    /// The cooked queue holds at most 1023 bytes (one ring slot stays free),
    /// and the line at most `LINE_CAPACITY`: committing a line to a fuller
    /// queue cuts it at 1023 bytes (see `push_all`).
    pub proof fn lemma_bounds(&self)
        requires
            self.wf(),
        ensures
            self.cooked().len() <= COOKED_CAPACITY - 1,
            self.line().len() <= LINE_CAPACITY,
    {
    }

    /// A terminal with nothing typed.
    pub fn new() -> (t: Self)
        ensures
            t.wf(),
            t.cooked() == Seq::<u8>::empty(),
            t.line() == Seq::<u8>::empty(),
    {
        Tty { inner: Inner::new() }
    }

    /// Take one byte of keyboard input and say what to echo. Carriage return
    /// and newline commit the line; backspace and delete remove the last byte
    /// of the line, if any; printable bytes join the line while it has room;
    /// everything else is ignored.
    pub fn input_char(&mut self, byte: u8) -> (e: Echo)
        requires
            old(self).wf(),
        ensures
            typed(*old(self), *final(self), byte, e),
    {
        if byte == 13 || byte == 10 {
            self.inner.commit_line();
            assert(self.line() =~= Seq::<u8>::empty());
            Echo::Newline
        } else if byte == 8 || byte == 127 {
            if self.inner.line_len == 0 {
                Echo::Quiet
            } else {
                self.inner.line_len = self.inner.line_len - 1;
                assert(self.line() =~= old(self).line().drop_last());
                Echo::Backspace
            }
        } else if 0x20 <= byte && byte <= 0x7e {
            if self.inner.line_len >= LINE_CAPACITY {
                Echo::Quiet
            } else {
                let n = self.inner.line_len;
                self.inner.line[n] = byte;
                self.inner.line_len = n + 1;
                assert(self.line() =~= old(self).line().push(byte));
                Echo::Byte(byte)
            }
        } else {
            Echo::Quiet
        }
    }

    /// Take up to `count` committed bytes, stopping after a newline. `None`
    /// when nothing is committed yet and bytes were asked for: the reader
    /// waits for an event and asks again.
    pub fn read(&mut self, count: usize) -> (r: Option<Vec<u8>>)
        requires
            old(self).wf(),
        ensures
            final(self).wf(),
            final(self).line() == old(self).line(),
            count == 0 ==> (r matches Some(v) && v@.len() == 0) && final(self).cooked() == old(self).cooked(),
            count > 0 && old(self).cooked().len() == 0 ==> r is None && final(self).cooked() == old(self).cooked(),
            count > 0 && old(self).cooked().len() > 0 ==> ({
                let n = read_len(old(self).cooked(), count as nat);
                &&& r matches Some(v)
                &&& v@ == old(self).cooked().take(n as int)
                &&& final(self).cooked() == old(self).cooked().skip(n as int)
            }),
    {
        let mut out: Vec<u8> = Vec::new();
        if count == 0 {
            return Some(out);
        }
        let ghost q0 = self.cooked();
        let mut done = false;
        while out.len() < count && !done
            invariant
                self.wf(),
                out@.len() <= count,
                out@.len() <= q0.len(),
                self.inner.line == old(self).inner.line && self.inner.line_len == old(self).inner.line_len,
                q0 == old(self).cooked(),
                out@ == q0.take(out@.len() as int),
                self.cooked() == q0.skip(out@.len() as int),
                !done ==> read_len(q0, count as nat) == out@.len() + read_len(self.cooked(), (count - out@.len()) as nat),
                done ==> read_len(q0, count as nat) == out@.len(),
            decreases count - out@.len(), if done { 0int } else { 1int },
        {
            let ghost q = self.cooked();
            let ghost k = out@.len() as int;
            match self.inner.cooked_pop() {
                Some(byte) => {
                    proof {
                        assert(q[0] == q0[k]);
                        assert(q0.take(k + 1) =~= q0.take(k).push(byte));
                        assert(q.drop_first() =~= q0.skip(k + 1));
                        assert(read_len(q, (count - k) as nat) == if byte == 10u8 { 1 } else {
                            1 + read_len(q.drop_first(), (count - k - 1) as nat) });
                    }
                    out.push(byte);
                    if byte == 10u8 {
                        done = true;
                    }
                },
                None => {
                    done = true;
                },
            }
        }
        if out.len() == 0 {
            return None;
        }
        Some(out)
    }
}

/// `new` is `old` after typing `byte`, echoing `e`: carriage return and
/// newline commit the line; backspace and delete drop its last byte; printable
/// bytes join it while it has room; other bytes change nothing.
pub open spec fn typed(old: Tty, new: Tty, byte: u8, e: Echo) -> bool {
    &&& new.wf()
    &&& (byte == 13 || byte == 10) ==> {
        &&& e == Echo::Newline
        &&& new.line().len() == 0
        &&& new.cooked() == push_all(old.cooked(), old.line().push(10u8))
    }
    &&& (byte == 8 || byte == 127) ==> {
        &&& new.cooked() == old.cooked()
        &&& if old.line().len() == 0 {
            e == Echo::Quiet && new.line() == old.line()
        } else {
            e == Echo::Backspace && new.line() == old.line().drop_last()
        }
    }
    &&& (0x20 <= byte <= 0x7e) ==> {
        &&& new.cooked() == old.cooked()
        &&& if old.line().len() >= LINE_CAPACITY {
            e == Echo::Quiet && new.line() == old.line()
        } else {
            e == Echo::Byte(byte) && new.line() == old.line().push(byte)
        }
    }
    &&& !(byte == 13 || byte == 10 || byte == 8 || byte == 127 || (0x20 <= byte <= 0x7e)) ==> {
        e == Echo::Quiet && new.line() == old.line() && new.cooked() == old.cooked()
    }
}

/// The bytes written to the screen for an echo.
pub fn echo_bytes(e: Echo) -> (v: Vec<u8>)
    ensures
        v@ == match e {
            Echo::Quiet => Seq::<u8>::empty(),
            Echo::Byte(b) => seq![b],
            Echo::Backspace => seq![8u8, 32u8, 8u8],
            Echo::Newline => seq![10u8],
        },
{
    let mut v: Vec<u8> = Vec::new();
    match e {
        Echo::Quiet => {},
        Echo::Byte(b) => { v.push(b); },
        Echo::Backspace => { v.push(8); v.push(32); v.push(8); },
        Echo::Newline => { v.push(10); },
    }
    assert(v@ =~= match e {
        Echo::Quiet => Seq::<u8>::empty(),
        Echo::Byte(b) => seq![b],
        Echo::Backspace => seq![8u8, 32u8, 8u8],
        Echo::Newline => seq![10u8],
    });
    v
}


proof fn lemma_read_len_to_newline(q: Seq<u8>, count: nat)
    requires
        q.len() >= 1,
        q[q.len() - 1] == 10u8,
        forall|i: int| 0 <= i < q.len() - 1 ==> q[i] != 10u8,
        count >= q.len(),
    ensures
        read_len(q, count) == q.len(),
    decreases q.len(),
{
    if q[0] != 10u8 {
        let r = q.drop_first();
        assert forall|i: int| 0 <= i < r.len() - 1 implies r[i] != 10u8 by {
            assert(r[i] == q[i + 1]);
        }
        lemma_read_len_to_newline(r, (count - 1) as nat);
    }
}

/// A line typed into a terminal with nothing committed, then committed, is
/// what the next read of at least its length gives back, newline included.
pub proof fn lemma_committed_line_read_back(line: Seq<u8>, count: nat)
    requires
        line.len() <= LINE_CAPACITY,
        forall|i: int| 0 <= i < line.len() ==> line[i] != 10u8,
        count > line.len(),
    ensures
        ({
            let q = push_all(Seq::<u8>::empty(), line.push(10u8));
            &&& q == line.push(10u8)
            &&& read_len(q, count) == q.len()
            &&& q.take(read_len(q, count) as int) == line.push(10u8)
        }),
{
    let q = line.push(10u8);
    assert(push_all(Seq::<u8>::empty(), q) =~= q);
    assert forall|i: int| 0 <= i < q.len() - 1 implies q[i] != 10u8 by {
        assert(q[i] == line[i]);
    }
    lemma_read_len_to_newline(q, count);
    assert(q.take(q.len() as int) =~= q);
}


/// Typing a printable byte into a line with room and then a backspace leaves
/// the line and the committed bytes as they were.
pub proof fn lemma_backspace_undoes_typing(t0: Tty, t1: Tty, t2: Tty, b: u8, e1: Echo, e2: Echo)
    requires
        0x20 <= b <= 0x7e,
        t0.line().len() < LINE_CAPACITY,
        typed(t0, t1, b, e1),
        typed(t1, t2, 8, e2),
    ensures
        t2.line() == t0.line(),
        t2.cooked() == t0.cooked(),
        e1 == Echo::Byte(b),
        e2 == Echo::Backspace,
{
    assert(t0.line().push(b).drop_last() =~= t0.line());
}

} // verus!
