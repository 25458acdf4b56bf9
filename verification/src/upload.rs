//! Observable progress of in-flight artifact uploads.
use vstd::prelude::*;

use crate::text::{chars_of, concat_chars, slice_chars, string_of};

verus! {

/// Truncate or zero-pad `data` to exactly `size` bytes.
///
/// This is the size discipline of the artifact pusher: the byte stream sent
/// for an artifact always has exactly the length announced in its header,
/// even if the file changed length since the header was computed.
pub fn pad_or_truncate(data: &Vec<u8>, size: usize) -> (r: Vec<u8>)
    ensures
        r@.len() == size as nat,
        forall|i: int| 0 <= i < size ==> r@[i] == if i < data@.len() {
            data@[i]
        } else {
            0u8
        },
{
    let mut out: Vec<u8> = Vec::new();
    let mut i: usize = 0;
    while i < size
        invariant
            i <= size,
            out@.len() == i as nat,
            forall|j: int| 0 <= j < i ==> out@[j] == if j < data@.len() {
                data@[j]
            } else {
                0u8
            },
        decreases size - i,
    {
        if i < data.len() {
            out.push(data[i]);
        } else {
            out.push(0u8);
        }
        i = i + 1;
    }
    out
}

/// One in-flight upload: its display name, total size, and bytes sent so
/// far. The byte counter never exceeds the size.
pub struct UploadRecord {
    pub name: String,
    pub size: u64,
    pub progress: u64,
}

/// A point-in-time observation of one upload.
pub struct ArtifactUploadProgress {
    pub name: String,
    pub size: u64,
    pub progress: u64,
}

/// The set of in-flight uploads. Concurrent access is the caller's lock;
/// the tracker itself only keeps the records consistent.
pub struct ArtifactUploadTracker {
    pub uploads: Vec<UploadRecord>,
}

/// Index of the first record named `name`.
pub open spec fn upload_index(uploads: Seq<UploadRecord>, name: Seq<char>) -> Option<int>
    decreases uploads.len(),
{
    if uploads.len() == 0 {
        None
    } else if uploads[0].name@ == name {
        Some(0)
    } else {
        match upload_index(uploads.skip(1), name) {
            Some(j) => Some(j + 1),
            None => None,
        }
    }
}

proof fn lemma_upload_index_found(uploads: Seq<UploadRecord>, name: Seq<char>, i: int)
    requires
        0 <= i < uploads.len(),
        uploads[i].name@ == name,
        forall|j: int| 0 <= j < i ==> uploads[j].name@ != name,
    ensures
        upload_index(uploads, name) == Some(i),
    decreases i,
{
    if i > 0 {
        lemma_upload_index_found(uploads.skip(1), name, i - 1);
    }
}

proof fn lemma_upload_index_not_found(uploads: Seq<UploadRecord>, name: Seq<char>)
    requires
        forall|j: int| 0 <= j < uploads.len() ==> uploads[j].name@ != name,
    ensures
        upload_index(uploads, name) is None,
    decreases uploads.len(),
{
    if uploads.len() > 0 {
        lemma_upload_index_not_found(uploads.skip(1), name);
    }
}

/// The record list after a start-of-upload: any earlier record under the
/// same name is dropped, and a fresh zero-progress record is appended.
pub open spec fn uploads_after_new(
    uploads: Seq<UploadRecord>,
    name: String,
    size: u64,
) -> Seq<UploadRecord> {
    (match upload_index(uploads, name@) {
        Some(i) => uploads.remove(i),
        None => uploads,
    }).push(UploadRecord { name, size, progress: 0 })
}

impl ArtifactUploadTracker {
    /// Every record's byte counter is within its size.
    pub open spec fn wf(&self) -> bool {
        forall|i: int|
            0 <= i < self.uploads@.len() ==> #[trigger] self.uploads@[i].progress
                <= self.uploads@[i].size
    }

    /// A tracker with no uploads.
    pub fn new() -> (r: Self)
        ensures
            r.wf(),
            r.uploads@.len() == 0,
    {
        ArtifactUploadTracker { uploads: Vec::new() }
    }

    /// Record the start of an upload of `size` bytes: the record under this
    /// name, if any, is dropped, and a fresh record with no progress is
    /// appended.
    pub fn new_upload(&mut self, name: String, size: u64)
        requires
            old(self).wf(),
        ensures
            final(self).wf(),
            final(self).uploads@ == uploads_after_new(old(self).uploads@, name, size),
    {
        self.remove_upload(&name);
        self.uploads.push(UploadRecord { name, size, progress: 0 });
    }

    /// Add `amount` bytes to the record named `name`, saturating at its
    /// size: the named record's counter becomes the smaller of counter plus
    /// amount and the size, every other record is untouched, and a missing
    /// name changes nothing.
    pub fn add_progress(&mut self, name: &String, amount: u64)
        requires
            old(self).wf(),
        ensures
            final(self).wf(),
            match upload_index(old(self).uploads@, name@) {
                Some(i) => final(self).uploads@ == old(self).uploads@.update(
                    i,
                    UploadRecord {
                        name: old(self).uploads@[i].name,
                        size: old(self).uploads@[i].size,
                        progress: if old(self).uploads@[i].progress + amount
                            <= old(self).uploads@[i].size {
                            (old(self).uploads@[i].progress + amount) as u64
                        } else {
                            old(self).uploads@[i].size
                        },
                    },
                ),
                None => final(self).uploads@ == old(self).uploads@,
            },
    {
        let mut i: usize = 0;
        let n = self.uploads.len();
        while i < n
            invariant
                self.wf(),
                i <= n,
                n == self.uploads@.len(),
                self.uploads@ == old(self).uploads@,
                forall|j: int| 0 <= j < i ==> self.uploads@[j].name@ != name@,
            decreases n - i,
        {
            if self.uploads[i].name == *name {
                proof {
                    lemma_upload_index_found(self.uploads@, name@, i as int);
                }
                let rec = &self.uploads[i];
                let room = rec.size - rec.progress;
                let add = if amount < room {
                    amount
                } else {
                    room
                };
                let name_back = rec.name.clone();
                let updated = UploadRecord {
                    name: name_back,
                    size: rec.size,
                    progress: rec.progress + add,
                };
                self.uploads.set(i, updated);
                proof {
                    assert(self.uploads@ =~= old(self).uploads@.update(
                        i as int,
                        self.uploads@[i as int],
                    ));
                }
                return ;
            }
            i = i + 1;
        }
        proof {
            lemma_upload_index_not_found(self.uploads@, name@);
        }
    }

    /// Drop the first record named `name`; nothing else moves, and a
    /// missing name changes nothing.
    pub fn remove_upload(&mut self, name: &String)
        requires
            old(self).wf(),
        ensures
            final(self).wf(),
            final(self).uploads@ == match upload_index(old(self).uploads@, name@) {
                Some(i) => old(self).uploads@.remove(i),
                None => old(self).uploads@,
            },
    {
        let mut i: usize = 0;
        let n = self.uploads.len();
        while i < n
            invariant
                self.wf(),
                i <= n,
                n == self.uploads@.len(),
                self.uploads@ == old(self).uploads@,
                forall|j: int| 0 <= j < i ==> self.uploads@[j].name@ != name@,
            decreases n - i,
        {
            if self.uploads[i].name == *name {
                proof {
                    lemma_upload_index_found(self.uploads@, name@, i as int);
                }
                let ghost pre = self.uploads@;
                self.uploads.remove(i);
                proof {
                    pre.remove_ensures(i as int);
                }
                return ;
            }
            i = i + 1;
        }
        proof {
            lemma_upload_index_not_found(self.uploads@, name@);
        }
    }

    /// A snapshot of every in-flight upload, record for record and in
    /// order. In every record the bytes sent are at most the total size.
    pub fn get_artifact_upload_progress(&self) -> (r: Vec<ArtifactUploadProgress>)
        requires
            self.wf(),
        ensures
            r@.len() == self.uploads@.len(),
            forall|i: int|
                0 <= i < r@.len() ==> #[trigger] r@[i].progress <= r@[i].size && r@[i].name@
                    == self.uploads@[i].name@ && r@[i].size == self.uploads@[i].size
                    && r@[i].progress == self.uploads@[i].progress,
    {
        let mut out: Vec<ArtifactUploadProgress> = Vec::new();
        let mut i: usize = 0;
        while i < self.uploads.len()
            invariant
                self.wf(),
                i <= self.uploads@.len(),
                out@.len() == i as nat,
                forall|j: int|
                    0 <= j < i ==> #[trigger] out@[j].progress <= out@[j].size && out@[j].name@
                        == self.uploads@[j].name@ && out@[j].size == self.uploads@[j].size
                        && out@[j].progress == self.uploads@[j].progress,
            decreases self.uploads@.len() - i,
        {
            let rec = &self.uploads[i];
            out.push(
                ArtifactUploadProgress {
                    name: rec.name.clone(),
                    size: rec.size,
                    progress: rec.progress,
                },
            );
            i = i + 1;
        }
        out
    }
}

/// Index of the last occurrence of `c` in `s`.
pub open spec fn last_idx(s: Seq<char>, c: char) -> Option<int>
    decreases s.len(),
{
    if s.len() == 0 {
        None
    } else if s.last() == c {
        Some(s.len() - 1)
    } else {
        last_idx(s.drop_last(), c)
    }
}

/// The file-name part of a path: everything after the last separator.
pub open spec fn basename(s: Seq<char>) -> Seq<char> {
    match last_idx(s, '/') {
        Some(i) => s.skip(i + 1),
        None => s,
    }
}

/// If `i` is the last position holding `c`, then `last_idx` says so.
pub proof fn lemma_last_idx_found(s: Seq<char>, c: char, i: int)
    requires
        0 <= i < s.len(),
        s[i] == c,
        forall|j: int| i < j < s.len() ==> s[j] != c,
    ensures
        last_idx(s, c) == Some(i),
    decreases s.len(),
{
    if i == s.len() - 1 {
    } else {
        lemma_last_idx_found(s.drop_last(), c, i);
    }
}

/// If no position holds `c`, then `last_idx` finds none.
pub proof fn lemma_last_idx_not_found(s: Seq<char>, c: char)
    requires
        forall|j: int| 0 <= j < s.len() ==> s[j] != c,
    ensures
        last_idx(s, c) is None,
    decreases s.len(),
{
    if s.len() > 0 {
        lemma_last_idx_not_found(s.drop_last(), c);
    }
}

fn rfind_char(s: &Vec<char>, c: char) -> (r: Option<usize>)
    ensures
        match r {
            Some(i) => i < s@.len() && last_idx(s@, c) == Some(i as int),
            None => last_idx(s@, c) is None,
        },
{
    let mut i: usize = s.len();
    while i > 0
        invariant
            i <= s@.len(),
            forall|j: int| i <= j < s@.len() ==> s@[j] != c,
        decreases i,
    {
        if s[i - 1] == c {
            proof {
                lemma_last_idx_found(s@, c, i - 1);
            }
            return Some(i - 1);
        }
        i = i - 1;
    }
    proof {
        lemma_last_idx_not_found(s@, c);
    }
    None
}

/// The display name of an upload: the last seven characters of the digest,
/// a space, and the file name of the path.
pub fn construct_upload_name(digest: &String, path: &String) -> (r: String)
    requires
        digest@.len() >= 7,
    ensures
        r@ == digest@.skip(digest@.len() - 7) + " "@ + basename(path@),
{
    let dc = chars_of(digest.as_str());
    let n = dc.len();
    let short = slice_chars(&dc, n - 7, n);
    let pc = chars_of(path.as_str());
    let base = match rfind_char(&pc, '/') {
        Some(i) => slice_chars(&pc, i + 1, pc.len()),
        None => pc,
    };
    let space = chars_of(" ");
    let a = concat_chars(&short, &space);
    let b = concat_chars(&a, &base);
    proof {
        assert(dc@.subrange(n - 7, n as int) =~= digest@.skip(digest@.len() - 7));
        assert(b@ =~= digest@.skip(digest@.len() - 7) + " "@ + basename(path@));
    }
    string_of(&b)
}

} // verus!
