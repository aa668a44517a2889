//! The bounded set of the largest files seen by a scan.

use vstd::prelude::*;

verus! {

/// The capacity of the largest-files set.
pub const LARGEST_FILES_LIMIT: usize = 10;

/// One file as reported: full path, display name and size.
pub struct ScanFile {
    pub path: String,
    pub name: String,
    pub size_bytes: u64,
}

impl ScanFile {
    /// A copy of this record.
    pub fn duplicate(&self) -> (r: ScanFile)
        ensures
            r == *self,
    {
        ScanFile { path: self.path.clone(), name: self.name.clone(), size_bytes: self.size_bytes }
    }
}

/// Copies a list of records.
pub fn duplicate_files(files: &Vec<ScanFile>) -> (r: Vec<ScanFile>)
    ensures
        r@ == files@,
{
    let mut out: Vec<ScanFile> = Vec::new();
    let mut i: usize = 0;
    while i < files.len()
        invariant
            i <= files@.len(),
            out@ == files@.take(i as int),
        decreases files@.len() - i,
    {
        out.push(files[i].duplicate());
        assert(out@ =~= files@.take(i as int + 1));
        i += 1;
    }
    assert(files@.take(files@.len() as int) =~= files@);
    out
}

/// Sizes never increase along `s`.
pub open spec fn sorted_desc(s: Seq<ScanFile>) -> bool {
    forall|i: int, j: int| 0 <= i < j < s.len() ==> s[i].size_bytes >= s[j].size_bytes
}

/// Sizes strictly decrease along `s`.
pub open spec fn strictly_desc(s: Seq<ScanFile>) -> bool {
    forall|i: int, j: int| 0 <= i < j < s.len() ==> s[i].size_bytes > s[j].size_bytes
}

/// Where a file of `size` goes in a list sorted by descending size: after
/// every leading record at least as large.
pub open spec fn insert_pos(s: Seq<ScanFile>, size: u64) -> nat
    decreases s.len(),
{
    if s.len() > 0 && s[0].size_bytes >= size {
        1 + insert_pos(s.drop_first(), size)
    } else {
        0
    }
}

/// What offering `f` to the set `s` leaves in it.
pub open spec fn offered(s: Seq<ScanFile>, f: ScanFile) -> Seq<ScanFile> {
    if f.size_bytes == 0 {
        s
    } else if s.len() < LARGEST_FILES_LIMIT {
        s.insert(insert_pos(s, f.size_bytes) as int, f)
    } else if f.size_bytes <= s.last().size_bytes {
        s
    } else {
        s.insert(insert_pos(s, f.size_bytes) as int, f).take(LARGEST_FILES_LIMIT as int)
    }
}

proof fn lemma_insert_pos(s: Seq<ScanFile>, size: u64, p: int)
    requires
        0 <= p <= s.len(),
        forall|k: int| 0 <= k < p ==> s[k].size_bytes >= size,
        p == s.len() || s[p].size_bytes < size,
    ensures
        insert_pos(s, size) == p,
    decreases s.len(),
{
    if p > 0 {
        lemma_insert_pos(s.drop_first(), size, p - 1);
    }
}

proof fn lemma_insert_pos_props(s: Seq<ScanFile>, size: u64)
    ensures
        insert_pos(s, size) <= s.len(),
        forall|k: int| 0 <= k < insert_pos(s, size) ==> s[k].size_bytes >= size,
        insert_pos(s, size) < s.len() ==> s[insert_pos(s, size) as int].size_bytes < size,
    decreases s.len(),
{
    if s.len() > 0 && s[0].size_bytes >= size {
        lemma_insert_pos_props(s.drop_first(), size);
        assert forall|k: int| 0 <= k < insert_pos(s, size) implies s[k].size_bytes >= size by {
            if k > 0 {
                assert(s[k] == s.drop_first()[k - 1]);
            }
        }
    }
}

/// A set of records within capacity, sorted by descending size, none of size zero.
pub open spec fn valid_set(s: Seq<ScanFile>) -> bool {
    &&& s.len() <= LARGEST_FILES_LIMIT
    &&& sorted_desc(s)
    &&& forall|k: int| 0 <= k < s.len() ==> #[trigger] s[k].size_bytes > 0
}

/// Offering a file keeps the set within ten records, sorted by descending
/// size and free of empty files. A non-empty file offered while the set is
/// not full, or larger than its smallest record, is in the set afterwards.
/// When every size differs, the order is strictly descending.
pub proof fn lemma_offer(s: Seq<ScanFile>, f: ScanFile)
    requires
        valid_set(s),
    ensures
        valid_set(offered(s, f)),
        f.size_bytes > 0 && (s.len() < LARGEST_FILES_LIMIT || f.size_bytes > s.last().size_bytes)
            ==> offered(s, f).contains(f),
        strictly_desc(s) && (forall|k: int| 0 <= k < s.len() ==> #[trigger] s[k].size_bytes
            != f.size_bytes) ==> strictly_desc(offered(s, f)),
{
    if f.size_bytes == 0 || (s.len() >= LARGEST_FILES_LIMIT && f.size_bytes <= s.last().size_bytes) {
        return;
    }
    let i = insert_pos(s, f.size_bytes) as int;
    lemma_insert_pos_props(s, f.size_bytes);
    let ins = s.insert(i, f);
    assert(sorted_desc(ins)) by {
        assert forall|a: int, b: int| 0 <= a < b < ins.len() implies ins[a].size_bytes
            >= ins[b].size_bytes by {
            if a < i && b > i {
                assert(s[a].size_bytes >= f.size_bytes);
            }
            if a == i && b > i {
                assert(ins[b] == s[b - 1]);
            }
        }
    }
    assert(ins[i] == f);
    if s.len() >= LARGEST_FILES_LIMIT {
        assert(i < LARGEST_FILES_LIMIT) by {
            if i >= LARGEST_FILES_LIMIT {
                assert(s[s.len() - 1].size_bytes >= f.size_bytes);
            }
        }
        assert(offered(s, f)[i] == f);
    }
    assert(offered(s, f).contains(f));
}

/// At most ten records, sorted by descending size, none of size zero.
pub struct LargestFiles {
    files: Vec<ScanFile>,
}

impl View for LargestFiles {
    type V = Seq<ScanFile>;

    closed spec fn view(&self) -> Seq<ScanFile> {
        self.files@
    }
}

impl LargestFiles {
    pub open spec fn wf(&self) -> bool {
        valid_set(self@)
    }

    /// An empty set.
    pub fn new() -> (r: LargestFiles)
        ensures
            r@ == Seq::<ScanFile>::empty(),
            r.wf(),
    {
        LargestFiles { files: Vec::new() }
    }

    /// The records, largest first.
    pub fn files(&self) -> (r: Vec<ScanFile>)
        ensures
            r@ == self@,
    {
        duplicate_files(&self.files)
    }

    /// Offers a file. A file of size zero is ignored. Below capacity the file
    /// is inserted after every record at least as large; at capacity it is
    /// inserted only when larger than the smallest record, which then leaves.
    pub fn update_largest_files(&mut self, file: ScanFile)
        requires
            old(self).wf(),
        ensures
            final(self).wf(),
            final(self)@ == offered(old(self)@, file),
            file.size_bytes > 0 && (old(self)@.len() < LARGEST_FILES_LIMIT || file.size_bytes
                > old(self)@.last().size_bytes) ==> final(self)@.contains(file),
            strictly_desc(old(self)@) && (forall|k: int|
                0 <= k < old(self)@.len() ==> #[trigger] old(self)@[k].size_bytes
                    != file.size_bytes) ==> strictly_desc(final(self)@),
    {
        let ghost s = self@;
        proof {
            lemma_offer(s, file);
        }
        if file.size_bytes == 0 {
            return;
        }
        let len = self.files.len();
        if len >= LARGEST_FILES_LIMIT && file.size_bytes <= self.files[len - 1].size_bytes {
            return;
        }
        let mut i: usize = 0;
        while i < len && self.files[i].size_bytes >= file.size_bytes
            invariant
                len == self.files@.len(),
                self@ == s,
                i <= len,
                forall|k: int| 0 <= k < i ==> self.files@[k].size_bytes >= file.size_bytes,
            decreases len - i,
        {
            i += 1;
        }
        proof {
            lemma_insert_pos(s, file.size_bytes, i as int);
        }
        self.files.insert(i, file);
        if self.files.len() > LARGEST_FILES_LIMIT {
            self.files.truncate(LARGEST_FILES_LIMIT);
        }
        assert(self@ =~= offered(s, file));
    }
}

} // verus!
