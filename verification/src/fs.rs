//! RamFS: an in-memory file system of named byte files.
use vstd::prelude::*;

verus! {

#[derive(Clone)]
pub struct File {
    pub name: Vec<char>,
    pub data: Vec<u8>,
}

pub struct RamFS {
    pub files: Vec<File>,
}

/// The bytes a read of up to `count` bytes at `offset` gets from file
/// contents `d`: none at or past the end.
pub open spec fn file_slice(d: Seq<u8>, offset: int, count: int) -> Seq<u8> {
    if offset < d.len() {
        d.subrange(offset, if count < d.len() - offset { offset + count } else { d.len() as int })
    } else {
        Seq::empty()
    }
}

/// Index of the first file called `name`, if any.
pub open spec fn file_index(files: Seq<File>, name: Seq<char>) -> Option<int> {
    if exists|i: int| 0 <= i < files.len() && files[i].name@ == name {
        Some(choose|i: int| 0 <= i < files.len() && files[i].name@ == name
            && forall|j: int| 0 <= j < i ==> files[j].name@ != name)
    } else {
        None
    }
}

pub proof fn lemma_file_index(files: Seq<File>, name: Seq<char>, i: int)
    requires
        0 <= i <= files.len(),
        forall|j: int| 0 <= j < i ==> files[j].name@ != name,
        i < files.len() ==> files[i].name@ == name,
    ensures
        file_index(files, name) == (if i < files.len() { Some(i) } else { None }),
{
    if i < files.len() {
        let c = choose|k: int| 0 <= k < files.len() && files[k].name@ == name
            && forall|j: int| 0 <= j < k ==> files[j].name@ != name;
        assert(0 <= i < files.len() && files[i].name@ == name
            && forall|j: int| 0 <= j < i ==> files[j].name@ != name);
        if c < i { assert(files[c].name@ != name); }
        if i < c { assert(files[i].name@ != name); }
    } else {
        assert(!exists|k: int| 0 <= k < files.len() && files[k].name@ == name);
    }
}

/// Whether two character sequences are equal.
pub fn chars_equal(a: &[char], b: &[char]) -> (r: bool)
    ensures
        r == (a@ == b@),
{
    if a.len() != b.len() {
        return false;
    }
    let mut i: usize = 0;
    while i < a.len()
        invariant
            i <= a.len(),
            a.len() == b.len(),
            forall|j: int| 0 <= j < i ==> a@[j] == b@[j],
        decreases a.len() - i,
    {
        if a[i] != b[i] {
            return false;
        }
        i = i + 1;
    }
    assert(a@ =~= b@);
    true
}

fn append_bytes(data: &mut Vec<u8>, bytes: &[u8])
    ensures
        final(data)@ == old(data)@ + bytes@,
{
    let mut k: usize = 0;
    while k < bytes.len()
        invariant
            k <= bytes@.len(),
            data@ == old(data)@ + bytes@.subrange(0, k as int),
        decreases bytes@.len() - k,
    {
        data.push(bytes[k]);
        k = k + 1;
        assert(data@ =~= old(data)@ + bytes@.subrange(0, k as int));
    }
    assert(bytes@.subrange(0, bytes@.len() as int) =~= bytes@);
}

impl RamFS {
    /// A file system with no files.
    pub fn new() -> (fs: Self)
        ensures
            fs.files@.len() == 0,
    {
        RamFS { files: Vec::new() }
    }

    /// Position of the first file called `name`.
    pub fn position(&self, name: &[char]) -> (r: Option<usize>)
        ensures
            r == (match file_index(self.files@, name@) { Some(i) => Some(i as usize), None => None }),
            r matches Some(i) ==> i < self.files@.len() && self.files@[i as int].name@ == name@,
            file_index(self.files@, name@) matches Some(i) ==> 0 <= i < self.files@.len(),
    {
        let mut i: usize = 0;
        while i < self.files.len()
            invariant
                i <= self.files.len(),
                forall|j: int| 0 <= j < i ==> self.files@[j].name@ != name@,
            decreases self.files.len() - i,
        {
            if chars_equal(self.files[i].name.as_slice(), name) {
                proof {
                    lemma_file_index(self.files@, name@, i as int);
                }
                return Some(i);
            }
            i = i + 1;
        }
        proof {
            lemma_file_index(self.files@, name@, i as int);
        }
        None
    }

    /// Create an empty file called `name`; false when `name` is empty or taken.
    pub fn create(&mut self, name: &[char]) -> (r: bool)
        ensures
            r == (name@.len() > 0 && file_index(old(self).files@, name@) is None),
            r ==> final(self).files@.len() == old(self).files@.len() + 1,
            r ==> final(self).files@.subrange(0, old(self).files@.len() as int) == old(self).files@,
            r ==> final(self).files@.last().name@ == name@ && final(self).files@.last().data@.len() == 0,
            !r ==> final(self).files@ == old(self).files@,
    {
        if name.len() == 0 {
            return false;
        }
        if self.position(name).is_some() {
            return false;
        }
        let mut v: Vec<char> = Vec::new();
        let mut i: usize = 0;
        while i < name.len()
            invariant
                i <= name.len(),
                v@ == name@.subrange(0, i as int),
            decreases name.len() - i,
        {
            v.push(name[i]);
            i = i + 1;
        }
        assert(v@ =~= name@);
        self.files.push(File { name: v, data: Vec::new() });
        assert(self.files@.subrange(0, old(self).files@.len() as int) =~= old(self).files@);
        true
    }

    /// The first file called `name`.
    pub fn find(&self, name: &[char]) -> (r: Option<&File>)
        ensures
            r is Some <==> file_index(self.files@, name@) is Some,
            r matches Some(f) ==> *f == self.files@[file_index(self.files@, name@)->0],
    {
        match self.position(name) {
            Some(i) => {
                assert(self.files@.len() == self.files.len());
                Some(&self.files[i])
            },
            None => None,
        }
    }

    /// The first file called `name`, for writing.
    pub fn find_mut(&mut self, name: &[char]) -> (r: Option<&mut File>)
        ensures
            r is Some <==> file_index(old(self).files@, name@) is Some,
            r is None ==> final(self).files@ == old(self).files@,
            r matches Some(f) ==> ({
                let i = file_index(old(self).files@, name@)->0;
                &&& *f == old(self).files@[i]
                &&& final(self).files@ == old(self).files@.update(i, *final(f))
            }),
    {
        match self.position(name) {
            Some(i) => {
                assert(self.files@.len() == self.files.len());
                Some(&mut self.files[i])
            },
            None => None,
        }
    }

    /// Append `bytes` to the first file called `name`; false when there is none.
    pub fn append_all(&mut self, name: &[char], bytes: &[u8]) -> (r: bool)
        ensures
            r == file_index(old(self).files@, name@) is Some,
            !r ==> final(self).files@ == old(self).files@,
            r ==> ({
                let i = file_index(old(self).files@, name@)->0;
                &&& final(self).files@.len() == old(self).files@.len()
                &&& final(self).files@[i].name@ == old(self).files@[i].name@
                &&& final(self).files@[i].data@ == old(self).files@[i].data@ + bytes@
                &&& forall|j: int| 0 <= j < old(self).files@.len() && j != i ==> final(self).files@[j] == old(self).files@[j]
            }),
    {
        let i = match self.position(name) {
            Some(i) => i,
            None => return false,
        };
        assert(self.files@.len() == self.files.len());
        let mut f = File { name: Vec::new(), data: Vec::new() };
        std::mem::swap(&mut f, &mut self.files[i]);
        append_bytes(&mut f.data, bytes);
        std::mem::swap(&mut f, &mut self.files[i]);
        true
    }

    /// Remove the first file called `name`; false when there is none.
    pub fn remove(&mut self, name: &[char]) -> (r: bool)
        ensures
            r == file_index(old(self).files@, name@) is Some,
            r ==> final(self).files@ == old(self).files@.remove(file_index(old(self).files@, name@)->0),
            !r ==> final(self).files@ == old(self).files@,
    {
        match self.position(name) {
            Some(idx) => {
                assert(self.files@.len() == self.files.len());
                self.files.remove(idx);
                true
            },
            None => false,
        }
    }

    /// The bytes of the file at index `idx`; empty when there is none.
    pub open spec fn data_at(&self, idx: int) -> Seq<u8> {
        if 0 <= idx < self.files@.len() { self.files@[idx].data@ } else { Seq::empty() }
    }

    /// Make `data` the whole contents of the file called `name`; `false`,
    /// with nothing changed, when there is no such file.
    pub fn set_contents(&mut self, name: &[char], data: Vec<u8>) -> (r: bool)
        ensures
            r == file_index(old(self).files@, name@) is Some,
            !r ==> final(self).files@ == old(self).files@,
            r ==> ({
                let i = file_index(old(self).files@, name@)->0;
                &&& 0 <= i < old(self).files@.len()
                &&& final(self).files@.len() == old(self).files@.len()
                &&& final(self).files@[i].name@ == old(self).files@[i].name@
                &&& final(self).files@[i].data@ == data@
                &&& forall|j: int| 0 <= j < old(self).files@.len() && j != i ==> final(self).files@[j] == old(self).files@[j]
            }),
    {
        let i = match self.position(name) {
            Some(i) => i,
            None => return false,
        };
        assert(self.files@.len() == self.files.len());
        let mut f = File { name: Vec::new(), data: Vec::new() };
        std::mem::swap(&mut f, &mut self.files[i]);
        f.data = data;
        std::mem::swap(&mut f, &mut self.files[i]);
        true
    }

    /// Size in bytes of the file at index `file_idx` (0 when there is none).
    pub fn file_size(&self, file_idx: usize) -> (r: usize)
        ensures
            r == self.data_at(file_idx as int).len(),
    {
        if file_idx < self.files.len() {
            self.files[file_idx].data.len()
        } else {
            0
        }
    }

    /// Up to `count` bytes of file `file_idx`, starting at byte `offset`; fewer
    /// at the end of the file, none past it or when there is no such file.
    pub fn read_at(&self, file_idx: usize, offset: usize, count: usize) -> (out: Vec<u8>)
        ensures
            out@ == file_slice(self.data_at(file_idx as int), offset as int, count as int),
            offset + out@.len() <= usize::MAX,
    {
        let mut out: Vec<u8> = Vec::new();
        if file_idx >= self.files.len() {
            return out;
        }
        let data = &self.files[file_idx].data;
        if offset >= data.len() {
            return out;
        }
        let end: usize = if count < data.len() - offset { offset + count } else { data.len() };
        let mut i: usize = offset;
        while i < end
            invariant
                offset <= i <= end <= data@.len(),
                data@ == self.data_at(file_idx as int),
                out@ == data@.subrange(offset as int, i as int),
            decreases end - i,
        {
            out.push(data[i]);
            i = i + 1;
            proof {
                assert(out@ =~= data@.subrange(offset as int, i as int));
            }
        }
        out
    }
}

/// Boot self-test of the file system: a name can be created once, found, and
/// removed once. Every outcome is proved here; nothing is checked at run time.
pub fn selftest_ramfs_basic() {
    let mut fs = RamFS::new();
    let alpha: [char; 5] = ['a', 'l', 'p', 'h', 'a'];
    let beta: [char; 4] = ['b', 'e', 't', 'a'];
    proof {
        lemma_file_index(fs.files@, alpha@, 0);
    }
    let created = fs.create(alpha.as_slice());
    assert(created);
    proof {
        assert(fs.files@[0].name@ == alpha@);
        lemma_file_index(fs.files@, alpha@, 0);
    }
    let again = fs.create(alpha.as_slice());
    assert(!again);
    let found = fs.find(alpha.as_slice());
    assert(found is Some);
    proof {
        assert(alpha@ != beta@) by {
            assert(alpha@.len() != beta@.len());
        }
        lemma_file_index(fs.files@, beta@, 1);
    }
    let missing = fs.find(beta.as_slice());
    assert(missing is None);
    let removed = fs.remove(alpha.as_slice());
    assert(removed);
    proof {
        lemma_file_index(fs.files@, alpha@, 0);
    }
    let removed_again = fs.remove(alpha.as_slice());
    assert(!removed_again);
}


/// Reading a file from where an append began, for as many bytes as were
/// appended, gives back exactly the appended bytes.
pub proof fn lemma_read_after_append(before: RamFS, after: RamFS, i: int, bytes: Seq<u8>)
    requires
        0 <= i < before.files@.len(),
        i < after.files@.len(),
        after.files@[i].data@ == before.files@[i].data@ + bytes,
    ensures
        file_slice(after.data_at(i), before.data_at(i).len() as int, bytes.len() as int) == bytes,
{
    let d = before.data_at(i);
    if bytes.len() > 0 {
        assert((d + bytes).subrange(d.len() as int, (d + bytes).len() as int) =~= bytes);
    }
}

} // verus!
