//! Building manifest entries for generated layers.
//!
//! A manifest enumerates per-path metadata with either inline data, a
//! reference to another artifact by digest, or nothing. Stub and
//! symbolic-link layers are generated purely from their specifications;
//! writing the entries to disk happens outside the library.
use vstd::prelude::*;

use crate::outside::{brace_expansion_of, brace_explode, sha256, sha256_of};
use crate::text::{bytes_to_hex, chars_of, contains_chars, contains_seq, ends_with_chars,
    hex_of, slice_chars, string_of};
use crate::metadata::{PrefixOptions, SymlinkSpec};

verus! {

/// The fixed timestamp written into generated manifest entries, so that
/// identical inputs produce identical files.
pub const MANIFEST_TIMESTAMP: u64 = 1705000271;

/// What a manifest entry holds.
#[derive(Clone, Debug, PartialEq, Eq)]
pub enum ManifestEntryData {
    Directory,
    /// A file, either empty or referring to an artifact by digest.
    File(Option<String>),
    /// A symbolic link with an inline target.
    Symlink(String),
}

/// One entry of a manifest.
#[derive(Clone, Debug, PartialEq, Eq)]
pub struct ManifestEntry {
    pub path: String,
    pub size: u64,
    pub mode: u32,
    pub mtime: u64,
    pub data: ManifestEntryData,
}

/// Ghost model of an entry's data.
#[verifier::ext_equal]
pub ghost enum ManifestEntryDataV {
    Directory,
    File(Option<Seq<char>>),
    Symlink(Seq<char>),
}

/// Ghost model of an entry.
#[verifier::ext_equal]
pub ghost struct ManifestEntryV {
    pub path: Seq<char>,
    pub size: u64,
    pub mode: u32,
    pub mtime: u64,
    pub data: ManifestEntryDataV,
}

impl View for ManifestEntryData {
    type V = ManifestEntryDataV;

    open spec fn view(&self) -> ManifestEntryDataV {
        match self {
            ManifestEntryData::Directory => ManifestEntryDataV::Directory,
            ManifestEntryData::File(Some(d)) => ManifestEntryDataV::File(Some(d@)),
            ManifestEntryData::File(None) => ManifestEntryDataV::File(None),
            ManifestEntryData::Symlink(t) => ManifestEntryDataV::Symlink(t@),
        }
    }
}

impl View for ManifestEntry {
    type V = ManifestEntryV;

    open spec fn view(&self) -> ManifestEntryV {
        ManifestEntryV {
            path: self.path@,
            size: self.size,
            mode: self.mode,
            mtime: self.mtime,
            data: self.data@,
        }
    }
}

impl DeepView for ManifestEntry {
    type V = ManifestEntryV;

    open spec fn deep_view(&self) -> ManifestEntryV {
        self.view()
    }
}

/// A stub or symlink layer could not be generated.
#[derive(Clone, Copy, Debug, PartialEq, Eq, Structural)]
pub enum ManifestError {
    /// A stub path whose brace pattern does not expand.
    BadBracePattern,
}

/// The entry generated for one expanded stub path: a directory when the
/// path ends in a separator, else an empty file; read-only either way.
pub open spec fn stub_entry_of(p: Seq<char>) -> ManifestEntryV {
    let is_dir = p.len() > 0 && p.last() == '/';
    ManifestEntryV {
        path: p,
        size: 0,
        mode: if is_dir {
            0o555u32
        } else {
            0o444u32
        },
        mtime: MANIFEST_TIMESTAMP,
        data: if is_dir {
            ManifestEntryDataV::Directory
        } else {
            ManifestEntryDataV::File(None)
        },
    }
}

/// What one stub expands to: itself when it has no brace pattern, else its
/// brace expansion.
pub open spec fn stub_expansions(stub: Seq<char>) -> Option<Seq<Seq<char>>> {
    if contains_seq(stub, seq!['{']) {
        brace_expansion_of(stub)
    } else {
        Some(seq![stub])
    }
}

fn make_stub_entry(p: String) -> (r: ManifestEntry)
    ensures
        r@ == stub_entry_of(p@),
{
    let cs = chars_of(p.as_str());
    let slash = chars_of("/");
    proof {
        reveal_strlit("/");
        assert(slash@ =~= seq!['/']);
    }
    let is_dir = ends_with_chars(&cs, &slash);
    proof {
        if p@.len() > 0 {
            assert(seq!['/'].is_suffix_of(p@) == (p@.last() == '/')) by {
                if seq!['/'].is_suffix_of(p@) {
                    assert(p@.subrange(p@.len() - 1, p@.len() as int)[0] == '/');
                }
                if p@.last() == '/' {
                    assert(p@.subrange(p@.len() - 1, p@.len() as int) =~= seq!['/']);
                }
            }
        }
    }
    ManifestEntry {
        path: p,
        size: 0,
        mode: if is_dir {
            0o555
        } else {
            0o444
        },
        mtime: MANIFEST_TIMESTAMP,
        data: if is_dir {
            ManifestEntryData::Directory
        } else {
            ManifestEntryData::File(None)
        },
    }
}

/// The manifest entries for one stub path, one per brace expansion.
pub fn stub_entries(stub: &String) -> (r: Result<Vec<ManifestEntry>, ManifestError>)
    ensures
        match r {
            Ok(es) => stub_expansions(stub@) matches Some(ps) && es.deep_view()
                == ps.map_values(|p: Seq<char>| stub_entry_of(p)),
            Err(_) => stub_expansions(stub@) is None,
        },
{
    let cs = chars_of(stub.as_str());
    let brace = chars_of("{");
    proof {
        reveal_strlit("{");
        assert(brace@ =~= seq!['{']);
    }
    let expansions: Vec<String> = if contains_chars(&cs, &brace) {
        match brace_explode(stub.as_str()) {
            Some(v) => v,
            None => {
                return Err(ManifestError::BadBracePattern);
            },
        }
    } else {
        let mut v: Vec<String> = Vec::new();
        v.push(stub.clone());
        proof {
            assert(v.deep_view() =~= seq![stub@]);
        }
        v
    };
    let ghost ps = expansions.deep_view();
    let mut out: Vec<ManifestEntry> = Vec::new();
    let mut i: usize = 0;
    while i < expansions.len()
        invariant
            i <= expansions@.len(),
            ps == expansions.deep_view(),
            out@.len() == i as nat,
            forall|k: int| 0 <= k < i ==> #[trigger] out@[k]@ == stub_entry_of(ps[k]),
        decreases expansions@.len() - i,
    {
        out.push(make_stub_entry(expansions[i].clone()));
        i = i + 1;
    }
    proof {
        assert(out.deep_view() =~= ps.map_values(|p: Seq<char>| stub_entry_of(p)));
    }
    Ok(out)
}

/// The entry generated for one symbolic link.
pub open spec fn symlink_entry_of(link: Seq<char>, target: Seq<char>) -> ManifestEntryV {
    ManifestEntryV {
        path: link,
        size: 0,
        mode: 0o444u32,
        mtime: MANIFEST_TIMESTAMP,
        data: ManifestEntryDataV::Symlink(target),
    }
}

/// The manifest entries for a symbolic-link layer, in order.
pub fn symlink_entries(symlinks: &Vec<SymlinkSpec>) -> (r: Vec<ManifestEntry>)
    ensures
        r@.len() == symlinks@.len(),
        forall|k: int|
            0 <= k < symlinks@.len() ==> #[trigger] r@[k]@ == symlink_entry_of(
                symlinks@[k].link@,
                symlinks@[k].target@,
            ),
{
    let mut out: Vec<ManifestEntry> = Vec::new();
    let mut i: usize = 0;
    while i < symlinks.len()
        invariant
            i <= symlinks@.len(),
            out@.len() == i as nat,
            forall|k: int|
                0 <= k < i ==> #[trigger] out@[k]@ == symlink_entry_of(
                    symlinks@[k].link@,
                    symlinks@[k].target@,
                ),
        decreases symlinks@.len() - i,
    {
        let s = &symlinks[i];
        out.push(
            ManifestEntry {
                path: s.link.clone(),
                size: 0,
                mode: 0o444,
                mtime: MANIFEST_TIMESTAMP,
                data: ManifestEntryData::Symlink(s.target.clone()),
            },
        );
        i = i + 1;
    }
    out
}

/// The concatenated UTF-8 bytes of a list of paths, the input of a
/// manifest's name.
pub open spec fn concat_utf8(paths: Seq<Seq<char>>) -> Seq<u8>
    decreases paths.len(),
{
    if paths.len() == 0 {
        Seq::empty()
    } else {
        concat_utf8(paths.drop_last()) + vstd::utf8::encode_utf8(paths.last())
    }
}

/// The name of a generated manifest: the digest of its input paths, in
/// order, so identical inputs reuse one file.
pub fn manifest_name(paths: &Vec<String>) -> (r: String)
    ensures
        r@ == hex_of(sha256_of(concat_utf8(paths.deep_view()))),
{
    let mut bytes: Vec<u8> = Vec::new();
    let mut i: usize = 0;
    while i < paths.len()
        invariant
            i <= paths@.len(),
            bytes@ == concat_utf8(paths.deep_view().take(i as int)),
        decreases paths@.len() - i,
    {
        let b = vstd::string::StrSliceExecFns::as_bytes_vec(paths[i].as_str());
        let mut k: usize = 0;
        let ghost pre = bytes@;
        while k < b.len()
            invariant
                k <= b@.len(),
                bytes@ == pre + b@.subrange(0, k as int),
            decreases b@.len() - k,
        {
            bytes.push(b[k]);
            proof {
                assert(bytes@ =~= pre + b@.subrange(0, k + 1 as int));
            }
            k = k + 1;
        }
        proof {
            assert(b@.subrange(0, b@.len() as int) =~= b@);
            let cur = paths.deep_view().take(i + 1 as int);
            assert(cur.drop_last() =~= paths.deep_view().take(i as int));
            assert(cur.last() == paths.deep_view()[i as int]);
            assert(bytes@ =~= concat_utf8(cur));
        }
        i = i + 1;
    }
    proof {
        assert(paths.deep_view().take(paths@.len() as int) =~= paths.deep_view());
    }
    let digest = sha256(&bytes);
    let hex = bytes_to_hex(&digest);
    string_of(&hex)
}

/// Whether `pre` is a path prefix of `p`: equal to it, or extended from it
/// at a separator.
pub open spec fn is_path_prefix(pre: Seq<char>, p: Seq<char>) -> bool {
    p == pre || (pre + seq!['/']).is_prefix_of(p)
}

/// `p` with a leading path prefix removed, component-wise.
pub open spec fn strip_path_prefix(pre: Seq<char>, p: Seq<char>) -> Seq<char> {
    if p == pre {
        Seq::empty()
    } else if (pre + seq!['/']).is_prefix_of(p) {
        p.skip(pre.len() as int + 1)
    } else {
        p
    }
}

/// `p` placed under `pre`: an absolute `p` loses its leading separator
/// first.
pub open spec fn prepend_path_prefix(pre: Seq<char>, p: Seq<char>) -> Seq<char> {
    if p.len() > 0 && p[0] == '/' {
        pre + p
    } else {
        pre + seq!['/'] + p
    }
}

/// The destination path of one manifest entry: the entry path with the
/// strip and prepend options applied, in that order. Resolving the path
/// through the filesystem, when asked for, happens before this.
pub open spec fn entry_path_of(p: Seq<char>, opts: crate::metadata::PrefixOptionsV) -> Seq<
    char,
> {
    let stripped = match opts.strip_prefix {
        Some(pre) => strip_path_prefix(pre, p),
        None => p,
    };
    match opts.prepend_prefix {
        Some(pre) => prepend_path_prefix(pre, stripped),
        None => stripped,
    }
}

fn strip_prefix_exec(pre: &String, p: Vec<char>) -> (r: Vec<char>)
    ensures
        r@ == strip_path_prefix(pre@, p@),
{
    let pc = chars_of(pre.as_str());
    if crate::text::chars_eq(&p, &pc) {
        let r: Vec<char> = Vec::new();
        proof {
            assert(r@ =~= Seq::<char>::empty());
        }
        return r;
    }
    let mut with_slash = pc;
    with_slash.push('/');
    proof {
        assert(with_slash@ =~= pre@ + seq!['/']);
    }
    if crate::text::starts_with_chars(&p, &with_slash) {
        let r = slice_chars(&p, with_slash.len(), p.len());
        proof {
            assert(r@ =~= p@.skip(pre@.len() as int + 1));
        }
        r
    } else {
        p
    }
}

fn prepend_prefix_exec(pre: &String, p: Vec<char>) -> (r: Vec<char>)
    ensures
        r@ == prepend_path_prefix(pre@, p@),
{
    let pc = chars_of(pre.as_str());
    if p.len() > 0 && p[0] == '/' {
        let r = crate::text::concat_chars(&pc, &p);
        r
    } else {
        let mut joined = pc;
        joined.push('/');
        let r = crate::text::concat_chars(&joined, &p);
        proof {
            assert(r@ =~= pre@ + seq!['/'] + p@);
        }
        r
    }
}

/// Compute the destination path of one manifest entry from its source path
/// and the prefix options; the caller canonicalizes first when that option
/// is set.
pub fn calculate_manifest_entry_path(path: &String, prefix_options: &PrefixOptions) -> (r:
    String)
    ensures
        r@ == entry_path_of(path@, prefix_options@),
{
    let mut cur = chars_of(path.as_str());
    match &prefix_options.strip_prefix {
        Some(pre) => {
            cur = strip_prefix_exec(pre, cur);
        },
        None => {},
    }
    match &prefix_options.prepend_prefix {
        Some(pre) => {
            cur = prepend_prefix_exec(pre, cur);
        },
        None => {},
    }
    string_of(&cur)
}

/// Expand one brace pattern, or hand the path back unchanged when it has
/// none.
pub fn expand_braces(expr: &String) -> (r: Result<Vec<String>, ManifestError>)
    ensures
        match r {
            Ok(v) => stub_expansions(expr@) == Some(v.deep_view()),
            Err(_) => stub_expansions(expr@) is None,
        },
{
    let cs = chars_of(expr.as_str());
    let brace = chars_of("{");
    proof {
        reveal_strlit("{");
        assert(brace@ =~= seq!['{']);
    }
    if contains_chars(&cs, &brace) {
        match brace_explode(expr.as_str()) {
            Some(v) => Ok(v),
            None => Err(ManifestError::BadBracePattern),
        }
    } else {
        let mut v: Vec<String> = Vec::new();
        v.push(expr.clone());
        proof {
            assert(v.deep_view() =~= seq![expr@]);
        }
        Ok(v)
    }
}

/// A manifest entry for one file of a path-based layer, from values the
/// caller read from the filesystem.
pub fn manifest_file_entry(path: String, size: u64, mode: u32, data: ManifestEntryData) -> (r:
    ManifestEntry)
    ensures
        r@ == (ManifestEntryV {
            path: path@,
            size: size,
            mode: mode,
            mtime: MANIFEST_TIMESTAMP,
            data: data@,
        }),
{
    ManifestEntry { path, size, mode, mtime: MANIFEST_TIMESTAMP, data }
}

} // verus!
