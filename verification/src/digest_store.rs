//! The digest store: SHA-256 digests of files, memoized by modification
//! time.
//!
//! The store is keyed by canonicalized path; a recorded digest counts only
//! while the file's current modification time equals the recorded one.
//! Reading the file, locking the backing file and asking the filesystem for
//! times happen outside the library; this module holds the table itself and
//! what its operations mean.
use vstd::prelude::*;

use crate::text::{chars_of, string_of};
use crate::toml_text::{parse_toml, TomlValue};

verus! {

/// The schema version of the store's on-disk table.
#[derive(Clone, Copy, Debug, PartialEq, Eq, Structural)]
pub enum DigestRepositoryVersion {
    V0,
}

impl DigestRepositoryVersion {
    /// The number written in the version field.
    pub fn as_int(&self) -> (r: u64)
        ensures
            r == 0,
    {
        0
    }
}

/// One memoized digest: a path, the digest of the file's bytes, and the
/// modification time observed when the digest was computed, as an
/// RFC 3339 text.
pub struct DigestEntry {
    pub path: String,
    pub digest: String,
    pub mtime: String,
}

/// The store's contents.
pub struct DigestRepositoryContents {
    pub version: DigestRepositoryVersion,
    pub digests: Vec<DigestEntry>,
}

/// The table as a map from path to digest and recorded time; a later entry
/// for the same path wins.
pub open spec fn store_map(entries: Seq<DigestEntry>) -> Map<Seq<char>, (Seq<char>, Seq<char>)>
    decreases entries.len(),
{
    if entries.len() == 0 {
        Map::empty()
    } else {
        store_map(entries.drop_last()).insert(
            entries.last().path@,
            (entries.last().digest@, entries.last().mtime@),
        )
    }
}

impl DigestRepositoryContents {
    /// The table's map view.
    pub open spec fn map_view(&self) -> Map<Seq<char>, (Seq<char>, Seq<char>)> {
        store_map(self.digests@)
    }

    /// An empty store.
    pub fn new() -> (r: Self)
        ensures
            r.map_view() == Map::<Seq<char>, (Seq<char>, Seq<char>)>::empty(),
            r.version == DigestRepositoryVersion::V0,
    {
        let r = DigestRepositoryContents {
            version: DigestRepositoryVersion::V0,
            digests: Vec::new(),
        };
        proof {
            assert(r.map_view() =~= Map::<Seq<char>, (Seq<char>, Seq<char>)>::empty());
        }
        r
    }

    /// Record the digest of `path` as observed at `mtime`, overwriting any
    /// earlier entry for the same path.
    pub fn add(&mut self, path: String, mtime: String, digest: String)
        ensures
            final(self).map_view() == old(self).map_view().insert(path@, (digest@, mtime@)),
            final(self).version == old(self).version,
    {
        let ghost pre = self.digests@;
        self.digests.push(DigestEntry { path, digest, mtime });
        proof {
            assert(self.digests@.drop_last() =~= pre);
        }
    }

    /// The digest recorded for `path`, provided the file's current
    /// modification time equals the recorded one; a stale or missing entry
    /// is absent.
    pub fn get(&self, path: &String, current_mtime: &String) -> (r: Option<String>)
        ensures
            match r {
                Some(d) => self.map_view().dom().contains(path@) && self.map_view()[path@].0
                    == d@ && self.map_view()[path@].1 == current_mtime@,
                None => !self.map_view().dom().contains(path@) || self.map_view()[path@].1
                    != current_mtime@,
            },
    {
        let mut i: usize = self.digests.len();
        proof {
            assert(self.digests@.take(self.digests@.len() as int) =~= self.digests@);
        }
        while i > 0
            invariant
                i <= self.digests@.len(),
                store_map(self.digests@).dom().contains(path@) == store_map(
                    self.digests@.take(i as int),
                ).dom().contains(path@),
                store_map(self.digests@).dom().contains(path@) ==> store_map(
                    self.digests@.take(i as int),
                )[path@] == store_map(self.digests@)[path@],
            decreases i,
        {
            proof {
                assert(self.digests@.take(i as int).drop_last() =~= self.digests@.take(i - 1));
                assert(self.digests@.take(i as int).last() == self.digests@[i - 1]);
            }
            let e = &self.digests[i - 1];
            if e.path == *path {
                if e.mtime == *current_mtime {
                    return Some(e.digest.clone());
                } else {
                    return None;
                }
            }
            i = i - 1;
        }
        proof {
            assert(self.digests@.take(0) =~= Seq::<DigestEntry>::empty());
        }
        None
    }
}

/// The memoization law: immediately after recording a digest, looking the
/// path up at the very modification time that was recorded yields that
/// digest; at any other observed time the entry counts as absent.
pub proof fn lemma_store_add_then_get(
    m: Map<Seq<char>, (Seq<char>, Seq<char>)>,
    path: Seq<char>,
    mtime: Seq<char>,
    digest: Seq<char>,
    observed: Seq<char>,
)
    ensures
        m.insert(path, (digest, mtime)).dom().contains(path),
        m.insert(path, (digest, mtime))[path] == (digest, mtime),
        mtime == observed ==> m.insert(path, (digest, mtime))[path].1 == observed,
        mtime != observed ==> m.insert(path, (digest, mtime))[path].1 != observed,
{
}

/// A string quoted for the table format: backslashes and quotes escaped.
pub open spec fn quoted(s: Seq<char>) -> Seq<char>
    decreases s.len(),
{
    if s.len() == 0 {
        seq!['"'] + seq!['"']
    } else {
        let inner = quoted(s.drop_last());
        let body = inner.subrange(1, inner.len() - 1);
        let last = if s.last() == '"' || s.last() == '\\' {
            seq!['\\', s.last()]
        } else {
            seq![s.last()]
        };
        seq!['"'] + body + last + seq!['"']
    }
}

/// Quote a string for the table format.
pub fn quote_chars(s: &Vec<char>) -> (r: Vec<char>)
    ensures
        r@ == quoted(s@),
{
    let mut out: Vec<char> = Vec::new();
    out.push('"');
    let mut i: usize = 0;
    while i < s.len()
        invariant
            i <= s@.len(),
            out@.len() >= 1,
            out@ == quoted(s@.subrange(0, i as int)).drop_last(),
        decreases s@.len() - i,
    {
        let ghost pre = s@.subrange(0, i as int);
        let c = s[i];
        if c == '"' || c == '\\' {
            out.push('\\');
            out.push(c);
        } else {
            out.push(c);
        }
        proof {
            let cur = s@.subrange(0, i + 1 as int);
            assert(cur.drop_last() =~= pre);
            let inner = quoted(pre);
            assert(inner.subrange(1, inner.len() - 1) =~= inner.drop_last().skip(1));
            assert(out@ =~= quoted(cur).drop_last());
        }
        i = i + 1;
    }
    out.push('"');
    proof {
        assert(s@.subrange(0, s@.len() as int) =~= s@);
        assert(out@ =~= quoted(s@));
    }
    out
}

/// Whether the entry at `i` is the latest one for its path.
pub open spec fn entry_current(entries: Seq<DigestEntry>, i: int) -> bool {
    forall|j: int| i < j < entries.len() ==> entries[j].path@ != entries[i].path@
}

/// The rendering of one store entry.
pub open spec fn render_entry(e: DigestEntry) -> Seq<char> {
    "\n[digests."@ + quoted(e.path@) + "]\ndigest = "@ + quoted(e.digest@) + "\nmtime = "@
        + quoted(e.mtime@) + "\n"@
}

/// The rendering of the entries from position `i` on; an entry overridden
/// by a later one for the same path is not written.
pub open spec fn render_entries(entries: Seq<DigestEntry>, i: int) -> Seq<char>
    decreases entries.len() - i,
{
    if i < 0 || i >= entries.len() {
        Seq::empty()
    } else {
        (if entry_current(entries, i) {
            render_entry(entries[i])
        } else {
            Seq::empty()
        }) + render_entries(entries, i + 1)
    }
}

impl DigestRepositoryContents {
    /// The store rendered as its table file: a version line, then one
    /// section per live entry, in insertion order.
    pub fn to_pretty_string(&self) -> (r: String)
        ensures
            r@ == "version = 0\n"@ + render_entries(self.digests@, 0),
    {
        let mut out = chars_of("version = 0\n");
        let n = self.digests.len();
        let mut i: usize = 0;
        proof {
            assert(out@ + render_entries(self.digests@, 0) == out@ + render_entries(
                self.digests@,
                0,
            ));
        }
        while i < n
            invariant
                i <= n,
                n == self.digests@.len(),
                "version = 0\n"@ + render_entries(self.digests@, 0) == out@ + render_entries(
                    self.digests@,
                    i as int,
                ),
            decreases n - i,
        {
            // Is this entry still the latest one for its path?
            let mut live = true;
            let mut j: usize = i + 1;
            while j < n
                invariant
                    i < j <= n,
                    n == self.digests@.len(),
                    live == (forall|k: int|
                        i < k < j ==> self.digests@[k].path@ != self.digests@[i as int].path@),
                decreases n - j,
            {
                if live && self.digests[j].path == self.digests[i].path {
                    live = false;
                }
                j = j + 1;
            }
            if live {
                let e = &self.digests[i];
                let mut piece = chars_of("\n[digests.");
                let pq = quote_chars(&chars_of(e.path.as_str()));
                piece = crate::text::concat_chars(&piece, &pq);
                piece = crate::text::concat_chars(&piece, &chars_of("]\ndigest = "));
                piece = crate::text::concat_chars(&piece, &quote_chars(&chars_of(e.digest.as_str())));
                piece = crate::text::concat_chars(&piece, &chars_of("\nmtime = "));
                piece = crate::text::concat_chars(&piece, &quote_chars(&chars_of(e.mtime.as_str())));
                piece = crate::text::concat_chars(&piece, &chars_of("\n"));
                proof {
                    assert(piece@ =~= render_entry(self.digests@[i as int]));
                }
                let merged = crate::text::concat_chars(&out, &piece);
                out = merged;
            }
            proof {
                assert(render_entries(self.digests@, i as int) == (if entry_current(
                    self.digests@,
                    i as int,
                ) {
                    render_entry(self.digests@[i as int])
                } else {
                    Seq::<char>::empty()
                }) + render_entries(self.digests@, i + 1));
                if !entry_current(self.digests@, i as int) {
                    assert(Seq::<char>::empty() + render_entries(self.digests@, i + 1)
                        =~= render_entries(self.digests@, i + 1));
                }
            }
            i = i + 1;
        }
        proof {
            assert(render_entries(self.digests@, n as int) =~= Seq::<char>::empty());
            assert(out@ + Seq::<char>::empty() =~= out@);
        }
        string_of(&out)
    }

    /// Read a store from its table file: the text is parsed into a
    /// document and the document is interpreted by [`store_from_doc`],
    /// which carries the exact outcome table. Text that is not a
    /// well-formed document counts as an empty store, never as an error.
    pub fn from_str(contents: &str) -> (r: DigestRepositoryContents)
        ensures
            r.version == DigestRepositoryVersion::V0,
    {
        match parse_toml(contents) {
            Ok(doc) => store_from_doc(&doc),
            Err(_) => DigestRepositoryContents::new(),
        }
    }
}

/// Whether one root entry reads `version = 0`.
pub open spec fn kv_is_version_zero(kv: crate::toml_text::TomlKeyVal) -> bool {
    &&& kv.path@.len() == 1
    &&& kv.path@[0]@ == "version"@
    &&& kv.value matches TomlValue::Int(n) && n == 0
}

/// The string held by a one-key entry named `name`, if that is what the
/// entry is.
pub open spec fn kv_string_field(
    kv: crate::toml_text::TomlKeyVal,
    name: Seq<char>,
) -> Option<Seq<char>> {
    if kv.path@.len() == 1 && kv.path@[0]@ == name {
        match kv.value {
            TomlValue::Str(s) => Some(s@),
            _ => None,
        }
    } else {
        None
    }
}

/// The last value a section gives for a string field.
pub open spec fn section_field(
    entries: Seq<crate::toml_text::TomlKeyVal>,
    name: Seq<char>,
) -> Option<Seq<char>>
    decreases entries.len(),
{
    if entries.len() == 0 {
        None
    } else {
        match kv_string_field(entries.last(), name) {
            Some(v) => Some(v),
            None => section_field(entries.drop_last(), name),
        }
    }
}

/// Whether a section is one store entry: keyed `[digests."path"]`, every
/// line a `digest` or `mtime` string, and both present.
pub open spec fn section_is_store_entry(sec: crate::toml_text::TomlSection) -> bool {
    &&& sec.path@.len() == 2
    &&& !sec.is_array
    &&& sec.path@[0]@ == "digests"@
    &&& forall|i: int|
        0 <= i < sec.entries@.len() ==> kv_string_field(#[trigger] sec.entries@[i], "digest"@)
            is Some || kv_string_field(sec.entries@[i], "mtime"@) is Some
    &&& section_field(sec.entries@, "digest"@) is Some
    &&& section_field(sec.entries@, "mtime"@) is Some
}

/// Whether a document is a well-formed store table: a nonempty root made
/// only of `version = 0` lines, and one store entry per section.
pub open spec fn store_doc_ok(doc: crate::toml_text::TomlDoc) -> bool {
    &&& doc.root@.len() > 0
    &&& forall|i: int| 0 <= i < doc.root@.len() ==> kv_is_version_zero(#[trigger] doc.root@[i])
    &&& forall|i: int|
        0 <= i < doc.sections@.len() ==> section_is_store_entry(#[trigger] doc.sections@[i])
}

/// The map a well-formed store document describes; a later section for the
/// same path wins.
pub open spec fn store_map_of_sections(sections: Seq<crate::toml_text::TomlSection>) -> Map<
    Seq<char>,
    (Seq<char>, Seq<char>),
>
    decreases sections.len(),
{
    if sections.len() == 0 {
        Map::empty()
    } else {
        store_map_of_sections(sections.drop_last()).insert(
            sections.last().path@[1]@,
            (
                section_field(sections.last().entries@, "digest"@).unwrap_or(Seq::empty()),
                section_field(sections.last().entries@, "mtime"@).unwrap_or(Seq::empty()),
            ),
        )
    }
}

/// Interpret a parsed document as a store: a well-formed version-0 table
/// loads exactly its entries; anything else is the empty store, never an
/// error.
pub fn store_from_doc(doc: &crate::toml_text::TomlDoc) -> (r: DigestRepositoryContents)
    ensures
        r.version == DigestRepositoryVersion::V0,
        store_doc_ok(*doc) ==> r.map_view() == store_map_of_sections(doc.sections@),
        !store_doc_ok(*doc) ==> r.map_view() == Map::<Seq<char>, (Seq<char>, Seq<char>)>::empty(),
{
    let empty = DigestRepositoryContents::new();
    let mut ri: usize = 0;
    while ri < doc.root.len()
        invariant
            ri <= doc.root@.len(),
            empty.version == DigestRepositoryVersion::V0,
            empty.map_view() == Map::<Seq<char>, (Seq<char>, Seq<char>)>::empty(),
            forall|i: int| 0 <= i < ri ==> kv_is_version_zero(#[trigger] doc.root@[i]),
        decreases doc.root@.len() - ri,
    {
        let kv = &doc.root[ri];
        let mut ok = false;
        if kv.path.len() == 1 && crate::text::str_is(&kv.path[0], "version") {
            match &kv.value {
                TomlValue::Int(v) => {
                    if *v == 0 {
                        ok = true;
                    }
                },
                _ => {},
            }
        }
        if !ok {
            proof {
                assert(!kv_is_version_zero(doc.root@[ri as int]));
            }
            return empty;
        }
        ri = ri + 1;
    }
    if doc.root.len() == 0 {
        return empty;
    }
    let mut store = DigestRepositoryContents::new();
    let mut si: usize = 0;
    proof {
        assert(doc.sections@.take(0) =~= Seq::<crate::toml_text::TomlSection>::empty());
    }
    while si < doc.sections.len()
        invariant
            si <= doc.sections@.len(),
            store.version == DigestRepositoryVersion::V0,
            forall|i: int|
                0 <= i < si ==> section_is_store_entry(#[trigger] doc.sections@[i]),
            store.map_view() == store_map_of_sections(doc.sections@.take(si as int)),
        decreases doc.sections@.len() - si,
    {
        let sec = &doc.sections[si];
        if !(sec.path.len() == 2 && !sec.is_array && crate::text::str_is(
            &sec.path[0],
            "digests",
        )) {
            proof {
                assert(!section_is_store_entry(doc.sections@[si as int]));
            }
            return DigestRepositoryContents::new();
        }
        let path = sec.path[1].clone();
        let mut digest: Option<String> = None;
        let mut mtime: Option<String> = None;
        let mut ei: usize = 0;
        proof {
            assert(sec.entries@.take(0) =~= Seq::<crate::toml_text::TomlKeyVal>::empty());
        }
        while ei < sec.entries.len()
            invariant
                ei <= sec.entries@.len(),
                si < doc.sections@.len(),
                doc.sections@[si as int] == *sec,
                forall|i: int|
                    0 <= i < ei ==> kv_string_field(#[trigger] sec.entries@[i], "digest"@)
                        is Some || kv_string_field(sec.entries@[i], "mtime"@) is Some,
                match digest {
                    Some(d) => section_field(sec.entries@.take(ei as int), "digest"@) == Some(
                        d@,
                    ),
                    None => section_field(sec.entries@.take(ei as int), "digest"@) is None,
                },
                match mtime {
                    Some(m) => section_field(sec.entries@.take(ei as int), "mtime"@) == Some(
                        m@,
                    ),
                    None => section_field(sec.entries@.take(ei as int), "mtime"@) is None,
                },
            decreases sec.entries@.len() - ei,
        {
            let kv = &sec.entries[ei];
            proof {
                reveal_strlit("digest");
                reveal_strlit("mtime");
                assert("digest"@.len() != "mtime"@.len());
                assert(sec.entries@.take(ei + 1 as int).drop_last() =~= sec.entries@.take(
                    ei as int,
                ));
                assert(sec.entries@.take(ei + 1 as int).last() == sec.entries@[ei as int]);
            }
            if kv.path.len() == 1 && crate::text::str_is(&kv.path[0], "digest") {
                match &kv.value {
                    TomlValue::Str(s) => {
                        digest = Some(s.clone());
                    },
                    _ => {
                        proof {
                            assert(kv_string_field(sec.entries@[ei as int], "digest"@)
                                is None);
                            assert(kv_string_field(sec.entries@[ei as int], "mtime"@)
                                is None);
                        }
                        return DigestRepositoryContents::new();
                    },
                }
            } else if kv.path.len() == 1 && crate::text::str_is(&kv.path[0], "mtime") {
                match &kv.value {
                    TomlValue::Str(s) => {
                        mtime = Some(s.clone());
                    },
                    _ => {
                        proof {
                            assert(kv_string_field(sec.entries@[ei as int], "digest"@)
                                is None);
                            assert(kv_string_field(sec.entries@[ei as int], "mtime"@)
                                is None);
                        }
                        return DigestRepositoryContents::new();
                    },
                }
            } else {
                proof {
                    assert(kv_string_field(sec.entries@[ei as int], "digest"@) is None);
                    assert(kv_string_field(sec.entries@[ei as int], "mtime"@) is None);
                }
                return DigestRepositoryContents::new();
            }
            ei = ei + 1;
        }
        proof {
            assert(sec.entries@.take(sec.entries@.len() as int) =~= sec.entries@);
        }
        match (digest, mtime) {
            (Some(d), Some(m)) => {
                proof {
                    assert(section_is_store_entry(doc.sections@[si as int]));
                    assert(doc.sections@.take(si + 1 as int).drop_last() =~= doc.sections@.take(
                        si as int,
                    ));
                    assert(doc.sections@.take(si + 1 as int).last()
                        == doc.sections@[si as int]);
                }
                store.add(path, m, d);
            },
            _ => {
                proof {
                    assert(!section_is_store_entry(doc.sections@[si as int]));
                }
                return DigestRepositoryContents::new();
            },
        }
        si = si + 1;
    }
    proof {
        assert(doc.sections@.take(doc.sections@.len() as int) =~= doc.sections@);
        if !store_doc_ok(*doc) {
            assert(false);
        }
    }
    store
}

} // verus!
