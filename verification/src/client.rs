//! The client facade's own state: digest memoization, once-per-session
//! artifact registration, and layer memoization.
//!
//! The facade's I/O — canonicalizing paths, reading files, talking to the
//! dispatcher — happens outside the library; this module holds every
//! decision the facade makes.
use vstd::prelude::*;

use crate::digest_store::DigestRepositoryContents;
use crate::dispatcher::ArtifactType;
use crate::metadata::Layer;
use crate::outside::{sha256, sha256_of};
use crate::text::{bytes_to_hex, hex_of, string_of};

verus! {

/// The digest of an artifact's bytes, rendered as lowercase hex.
pub fn hash_artifact_bytes(data: &Vec<u8>) -> (r: String)
    ensures
        r@ == hex_of(sha256_of(data@)),
        r@.len() == 64,
{
    let digest = sha256(data);
    let hex = bytes_to_hex(&digest);
    string_of(&hex)
}

/// A memoized layer result: the artifact it resolved to.
pub struct LayerResult {
    pub digest: String,
    pub kind: ArtifactType,
}

/// The facade's bookkeeping.
pub struct ClientState {
    /// Path-keyed digest memoization, backed by the digest store file.
    pub digest_repo: DigestRepositoryContents,
    /// Paths already registered with the dispatcher this session.
    pub processed_artifact_paths: Vec<String>,
    /// Layers already resolved this session, with their results.
    pub cached_layers: Vec<(Layer, LayerResult)>,
}

/// Whether a path was registered already.
pub open spec fn processed_contains(paths: Seq<String>, p: Seq<char>) -> bool {
    exists|i: int| 0 <= i < paths.len() && paths[i]@ == p
}

/// Index of a memoized layer structurally equal to `l`.
pub open spec fn cached_layer_index(cache: Seq<(Layer, LayerResult)>, l: crate::metadata::LayerV)
    -> Option<int>
    decreases cache.len(),
{
    if cache.len() == 0 {
        None
    } else if cache[0].0@ == l {
        Some(0)
    } else {
        match cached_layer_index(cache.skip(1), l) {
            Some(j) => Some(j + 1),
            None => None,
        }
    }
}

fn strings_eqv(a: &Vec<String>, b: &Vec<String>) -> (r: bool)
    ensures
        r == (a.deep_view() == b.deep_view()),
{
    if a.len() != b.len() {
        proof {
            assert(a.deep_view().len() != b.deep_view().len());
        }
        return false;
    }
    let mut i: usize = 0;
    while i < a.len()
        invariant
            i <= a@.len(),
            a@.len() == b@.len(),
            forall|j: int| 0 <= j < i ==> #[trigger] a@[j]@ == b@[j]@,
        decreases a@.len() - i,
    {
        if !crate::text::str_is(&a[i], b[i].as_str()) {
            proof {
                assert(a.deep_view()[i as int] != b.deep_view()[i as int]);
            }
            return false;
        }
        i = i + 1;
    }
    proof {
        assert(a.deep_view() =~= b.deep_view());
    }
    true
}

fn opt_strings_eqv(a: &Option<String>, b: &Option<String>) -> (r: bool)
    ensures
        r == match (a, b) {
            (Some(x), Some(y)) => x@ == y@,
            (None, None) => true,
            _ => false,
        },
{
    match (a, b) {
        (Some(x), Some(y)) => crate::text::str_is(x, y.as_str()),
        (None, None) => true,
        _ => false,
    }
}

fn prefix_options_eqv(
    a: &crate::metadata::PrefixOptions,
    b: &crate::metadata::PrefixOptions,
) -> (r: bool)
    ensures
        r == (a@ == b@),
{
    let c = a.canonicalize == b.canonicalize;
    let s = opt_strings_eqv(&a.strip_prefix, &b.strip_prefix);
    let p = opt_strings_eqv(&a.prepend_prefix, &b.prepend_prefix);
    proof {
        if c && s && p {
            assert(a@ =~= b@);
        }
    }
    c && s && p
}

fn symlinks_eqv(
    a: &Vec<crate::metadata::SymlinkSpec>,
    b: &Vec<crate::metadata::SymlinkSpec>,
) -> (r: bool)
    ensures
        r == (a.deep_view() == b.deep_view()),
{
    if a.len() != b.len() {
        proof {
            assert(a.deep_view().len() != b.deep_view().len());
        }
        return false;
    }
    let mut i: usize = 0;
    while i < a.len()
        invariant
            i <= a@.len(),
            a@.len() == b@.len(),
            forall|j: int| 0 <= j < i ==> #[trigger] a@[j]@ == b@[j]@,
        decreases a@.len() - i,
    {
        let x = &a[i];
        let y = &b[i];
        if !(crate::text::str_is(&x.link, y.link.as_str()) && crate::text::str_is(
            &x.target,
            y.target.as_str(),
        )) {
            proof {
                assert(a.deep_view()[i as int] != b.deep_view()[i as int]);
            }
            return false;
        }
        proof {
            assert(a@[i as int]@ =~= b@[i as int]@);
        }
        i = i + 1;
    }
    proof {
        assert(a.deep_view() =~= b.deep_view());
    }
    true
}

/// Whether two layers are structurally equal.
pub fn layers_equal(a: &Layer, b: &Layer) -> (r: bool)
    ensures
        r == (a@ == b@),
{
    match (a, b) {
        (Layer::Tar { path: p1 }, Layer::Tar { path: p2 }) => crate::text::str_is(
            p1,
            p2.as_str(),
        ),
        (
            Layer::Paths { paths: ps1, prefix_options: o1 },
            Layer::Paths { paths: ps2, prefix_options: o2 },
        ) => strings_eqv(ps1, ps2) && prefix_options_eqv(o1, o2),
        (
            Layer::Glob { glob: g1, prefix_options: o1 },
            Layer::Glob { glob: g2, prefix_options: o2 },
        ) => crate::text::str_is(g1, g2.as_str()) && prefix_options_eqv(o1, o2),
        (Layer::Stubs { stubs: s1 }, Layer::Stubs { stubs: s2 }) => strings_eqv(s1, s2),
        (Layer::Symlinks { symlinks: s1 }, Layer::Symlinks { symlinks: s2 }) => symlinks_eqv(
            s1,
            s2,
        ),
        _ => {
            proof {
                assert(a@ != b@);
            }
            false
        },
    }
}

impl ClientState {
    /// A fresh session over an already-loaded digest store.
    pub fn new(digest_repo: DigestRepositoryContents) -> (r: Self)
        ensures
            r.digest_repo == digest_repo,
            r.processed_artifact_paths@.len() == 0,
            r.cached_layers@.len() == 0,
    {
        ClientState {
            digest_repo,
            processed_artifact_paths: Vec::new(),
            cached_layers: Vec::new(),
        }
    }

    /// The digest to use for a file, when the store's record is fresh:
    /// the file's current modification time must equal the recorded one.
    pub fn cached_digest(&self, path: &String, current_mtime: &String) -> (r: Option<String>)
        ensures
            match r {
                Some(d) => self.digest_repo.map_view().dom().contains(path@)
                    && self.digest_repo.map_view()[path@].0 == d@
                    && self.digest_repo.map_view()[path@].1 == current_mtime@,
                None => !self.digest_repo.map_view().dom().contains(path@)
                    || self.digest_repo.map_view()[path@].1 != current_mtime@,
            },
    {
        self.digest_repo.get(path, current_mtime)
    }

    /// Record a freshly computed digest in the store.
    pub fn record_digest(&mut self, path: String, mtime: String, digest: String)
        ensures
            final(self).digest_repo.map_view() == old(self).digest_repo.map_view().insert(
                path@,
                (digest@, mtime@),
            ),
            final(self).processed_artifact_paths == old(self).processed_artifact_paths,
            final(self).cached_layers == old(self).cached_layers,
    {
        self.digest_repo.add(path, mtime, digest);
    }

    /// Note that an artifact is being registered; true exactly when this
    /// session has not registered this path before, in which case the
    /// caller sends the registration to the dispatcher.
    pub fn register_artifact_once(&mut self, path: &String) -> (r: bool)
        ensures
            r == !processed_contains(old(self).processed_artifact_paths@, path@),
            processed_contains(final(self).processed_artifact_paths@, path@),
            forall|q: Seq<char>|
                processed_contains(final(self).processed_artifact_paths@, q)
                    == (processed_contains(old(self).processed_artifact_paths@, q) || q
                    == path@),
            final(self).digest_repo == old(self).digest_repo,
            final(self).cached_layers == old(self).cached_layers,
    {
        let mut i: usize = 0;
        let n = self.processed_artifact_paths.len();
        while i < n
            invariant
                i <= n,
                n == self.processed_artifact_paths@.len(),
                forall|j: int| 0 <= j < i ==> self.processed_artifact_paths@[j]@ != path@,
            decreases n - i,
        {
            if crate::text::str_is(&self.processed_artifact_paths[i], path.as_str()) {
                proof {
                    assert(processed_contains(self.processed_artifact_paths@, path@));
                }
                return false;
            }
            i = i + 1;
        }
        proof {
            if processed_contains(self.processed_artifact_paths@, path@) {
                let w = choose|w: int|
                    0 <= w < self.processed_artifact_paths@.len()
                        && self.processed_artifact_paths@[w]@ == path@;
                assert(false);
            }
        }
        let ghost pre = self.processed_artifact_paths@;
        self.processed_artifact_paths.push(path.clone());
        proof {
            assert(self.processed_artifact_paths@.last()@ == path@);
            assert(processed_contains(self.processed_artifact_paths@, path@));
            assert forall|q: Seq<char>|
                processed_contains(self.processed_artifact_paths@, q) == (processed_contains(
                    pre,
                    q,
                ) || q == path@) by {
                if processed_contains(self.processed_artifact_paths@, q) {
                    let w = choose|w: int|
                        0 <= w < self.processed_artifact_paths@.len()
                            && self.processed_artifact_paths@[w]@ == q;
                    if w < pre.len() {
                        assert(pre[w]@ == q);
                    }
                }
                if processed_contains(pre, q) {
                    let w = choose|w: int| 0 <= w < pre.len() && pre[w]@ == q;
                    assert(self.processed_artifact_paths@[w]@ == q);
                }
            }
        }
        true
    }

    /// The memoized result of a structurally equal layer, if any.
    pub fn cached_layer(&self, layer: &Layer) -> (r: Option<LayerResult>)
        ensures
            match r {
                Some(res) => cached_layer_index(self.cached_layers@, layer@) matches Some(i)
                    && self.cached_layers@[i].1.digest@ == res.digest@
                    && self.cached_layers@[i].1.kind == res.kind,
                None => cached_layer_index(self.cached_layers@, layer@) is None,
            },
    {
        let mut i: usize = 0;
        let n = self.cached_layers.len();
        while i < n
            invariant
                i <= n,
                n == self.cached_layers@.len(),
                forall|j: int| 0 <= j < i ==> self.cached_layers@[j].0@ != layer@,
        decreases n - i,
    {
            let entry = &self.cached_layers[i];
            if layers_equal(&entry.0, layer) {
                proof {
                    lemma_cached_layer_index_found(self.cached_layers@, layer@, i as int);
                }
                return Some(
                    LayerResult { digest: entry.1.digest.clone(), kind: entry.1.kind },
                );
            }
            i = i + 1;
        }
        proof {
            lemma_cached_layer_index_not_found(self.cached_layers@, layer@);
        }
        None
    }

    /// Memoize the result of a layer: the cache becomes the old cache plus
    /// the new entry, so earlier results stay exactly where they were and a
    /// later lookup of an already-cached layer still finds its first entry.
    pub fn cache_layer(&mut self, layer: Layer, digest: String, kind: ArtifactType)
        ensures
            final(self).cached_layers@ == old(self).cached_layers@.push(
                (layer, LayerResult { digest, kind }),
            ),
            final(self).digest_repo == old(self).digest_repo,
            final(self).processed_artifact_paths == old(self).processed_artifact_paths,
    {
        self.cached_layers.push((layer, LayerResult { digest, kind }));
    }
}

proof fn lemma_cached_layer_index_found(
    cache: Seq<(Layer, LayerResult)>,
    l: crate::metadata::LayerV,
    i: int,
)
    requires
        0 <= i < cache.len(),
        cache[i].0@ == l,
        forall|j: int| 0 <= j < i ==> cache[j].0@ != l,
    ensures
        cached_layer_index(cache, l) == Some(i),
    decreases i,
{
    if i > 0 {
        lemma_cached_layer_index_found(cache.skip(1), l, i - 1);
    }
}

proof fn lemma_cached_layer_index_not_found(
    cache: Seq<(Layer, LayerResult)>,
    l: crate::metadata::LayerV,
)
    requires
        forall|j: int| 0 <= j < cache.len() ==> cache[j].0@ != l,
    ensures
        cached_layer_index(cache, l) is None,
    decreases cache.len(),
{
    if cache.len() > 0 {
        lemma_cached_layer_index_not_found(cache.skip(1), l);
    }
}

/// The artifact kind a layer resolves to: a tar layer is sent as it is,
/// every other kind resolves to a generated manifest.
pub fn layer_artifact_kind(layer: &Layer) -> (r: ArtifactType)
    ensures
        r == (if layer@ is Tar {
            ArtifactType::Tar
        } else {
            ArtifactType::Manifest
        }),
{
    match layer {
        Layer::Tar { .. } => ArtifactType::Tar,
        _ => ArtifactType::Manifest,
    }
}

} // verus!
