//! The metadata engine: folding an ordered list of directives into the
//! effective parameters of one job.
//!
//! Each directive may replace a field, add to it, or delegate it to the
//! directive's container image. Later directives override earlier ones;
//! `added_*` fields extend whatever is present.
use vstd::prelude::*;
use vstd::seq_lib::*;

use crate::pattern::{eval_pattern, interpret_pattern, Context, Pattern};

verus! {

/// A numeric user id.
#[derive(Clone, Copy, Debug, PartialEq, Eq, Structural)]
pub struct UserId(pub u32);

/// A numeric group id.
#[derive(Clone, Copy, Debug, PartialEq, Eq, Structural)]
pub struct GroupId(pub u32);

/// A positive job timeout in seconds. A written timeout of zero means "no
/// timeout" and is represented as the absence of a `Timeout`.
#[derive(Clone, Copy, Debug, PartialEq, Eq, Structural)]
pub struct Timeout(pub u32);

impl Timeout {
    /// `None` exactly for zero.
    pub fn new(secs: u32) -> (r: Option<Timeout>)
        ensures
            r == if secs == 0 {
                Option::<Timeout>::None
            } else {
                Some(Timeout(secs))
            },
    {
        if secs == 0 {
            None
        } else {
            Some(Timeout(secs))
        }
    }
}

/// The network a job may reach.
#[derive(Clone, Copy, Debug, PartialEq, Eq, Structural)]
pub enum JobNetwork {
    Disabled,
    Loopback,
    Local,
}

impl Default for JobNetwork {
    fn default() -> (r: Self)
        ensures
            r == JobNetwork::Disabled,
    {
        JobNetwork::Disabled
    }
}

/// One special device file a job may be given.
#[derive(Clone, Copy, Debug, PartialEq, Eq, Structural)]
pub enum JobDevice {
    Full,
    Null,
    Random,
    Tty,
    Urandom,
    Zero,
}

/// A set of devices, one flag per device.
#[derive(Clone, Copy, Debug, PartialEq, Eq, Structural)]
pub struct DeviceSet {
    pub full: bool,
    pub null: bool,
    pub random: bool,
    pub tty: bool,
    pub urandom: bool,
    pub zero: bool,
}

/// The union of two device sets.
pub open spec fn device_union(a: DeviceSet, b: DeviceSet) -> DeviceSet {
    DeviceSet {
        full: a.full || b.full,
        null: a.null || b.null,
        random: a.random || b.random,
        tty: a.tty || b.tty,
        urandom: a.urandom || b.urandom,
        zero: a.zero || b.zero,
    }
}

impl DeviceSet {
    /// The set with no devices.
    pub fn empty() -> (r: DeviceSet)
        ensures
            r == (DeviceSet {
                full: false,
                null: false,
                random: false,
                tty: false,
                urandom: false,
                zero: false,
            }),
    {
        DeviceSet { full: false, null: false, random: false, tty: false, urandom: false, zero: false }
    }

    /// This set plus one device.
    pub fn with(self, d: JobDevice) -> (r: DeviceSet)
        ensures
            r == match d {
                JobDevice::Full => DeviceSet { full: true, ..self },
                JobDevice::Null => DeviceSet { null: true, ..self },
                JobDevice::Random => DeviceSet { random: true, ..self },
                JobDevice::Tty => DeviceSet { tty: true, ..self },
                JobDevice::Urandom => DeviceSet { urandom: true, ..self },
                JobDevice::Zero => DeviceSet { zero: true, ..self },
            },
    {
        match d {
            JobDevice::Full => DeviceSet { full: true, ..self },
            JobDevice::Null => DeviceSet { null: true, ..self },
            JobDevice::Random => DeviceSet { random: true, ..self },
            JobDevice::Tty => DeviceSet { tty: true, ..self },
            JobDevice::Urandom => DeviceSet { urandom: true, ..self },
            JobDevice::Zero => DeviceSet { zero: true, ..self },
        }
    }

    /// The union of this set with another.
    pub fn union(self, other: DeviceSet) -> (r: DeviceSet)
        ensures
            r == device_union(self, other),
    {
        DeviceSet {
            full: self.full || other.full,
            null: self.null || other.null,
            random: self.random || other.random,
            tty: self.tty || other.tty,
            urandom: self.urandom || other.urandom,
            zero: self.zero || other.zero,
        }
    }
}

/// A mount in the job's filesystem; the mount point may repeat.
#[derive(Clone, Debug, PartialEq, Eq)]
pub enum JobMount {
    Proc { mount_point: String },
    Tmp { mount_point: String },
    Sys { mount_point: String },
}

/// Ghost model of a mount.
#[verifier::ext_equal]
pub ghost enum MountV {
    Proc { mount_point: Seq<char> },
    Tmp { mount_point: Seq<char> },
    Sys { mount_point: Seq<char> },
}

impl View for JobMount {
    type V = MountV;

    open spec fn view(&self) -> MountV {
        match self {
            JobMount::Proc { mount_point } => MountV::Proc { mount_point: mount_point@ },
            JobMount::Tmp { mount_point } => MountV::Tmp { mount_point: mount_point@ },
            JobMount::Sys { mount_point } => MountV::Sys { mount_point: mount_point@ },
        }
    }
}

/// One environment variable assignment.
#[derive(Clone, Debug, PartialEq, Eq)]
pub struct EnvVar {
    pub key: String,
    pub value: String,
}

/// Ghost model of an environment variable.
#[verifier::ext_equal]
pub ghost struct EnvVarV {
    pub key: Seq<char>,
    pub value: Seq<char>,
}

impl View for EnvVar {
    type V = EnvVarV;

    open spec fn view(&self) -> EnvVarV {
        EnvVarV { key: self.key@, value: self.value@ }
    }
}

/// One layer of the effective environment: a variable map and whether it
/// extends the environment below it.
#[derive(Clone, Debug, PartialEq, Eq)]
pub struct EnvironmentSpec {
    pub vars: Vec<EnvVar>,
    pub extend: bool,
}

/// Ghost model of an environment layer.
#[verifier::ext_equal]
pub ghost struct EnvSpecV {
    pub vars: Seq<EnvVarV>,
    pub extend: bool,
}

impl View for EnvironmentSpec {
    type V = EnvSpecV;

    open spec fn view(&self) -> EnvSpecV {
        EnvSpecV { vars: self.vars.deep_view(), extend: self.extend }
    }
}

impl DeepView for EnvVar {
    type V = EnvVarV;

    open spec fn deep_view(&self) -> EnvVarV {
        self.view()
    }
}

/// Path rewriting applied to each entry of a path-based layer, in this
/// order: canonicalize, strip a prefix, prepend a prefix.
#[derive(Clone, Debug, PartialEq, Eq)]
pub struct PrefixOptions {
    pub canonicalize: bool,
    pub strip_prefix: Option<String>,
    pub prepend_prefix: Option<String>,
}

/// Ghost model of the prefix options.
#[verifier::ext_equal]
pub ghost struct PrefixOptionsV {
    pub canonicalize: bool,
    pub strip_prefix: Option<Seq<char>>,
    pub prepend_prefix: Option<Seq<char>>,
}

impl View for PrefixOptions {
    type V = PrefixOptionsV;

    open spec fn view(&self) -> PrefixOptionsV {
        PrefixOptionsV {
            canonicalize: self.canonicalize,
            strip_prefix: match &self.strip_prefix {
                Some(s) => Some(s@),
                None => None,
            },
            prepend_prefix: match &self.prepend_prefix {
                Some(s) => Some(s@),
                None => None,
            },
        }
    }
}

impl Default for PrefixOptions {
    fn default() -> (r: Self)
        ensures
            r@ == (PrefixOptionsV { canonicalize: false, strip_prefix: None, prepend_prefix: None }),
    {
        PrefixOptions { canonicalize: false, strip_prefix: None, prepend_prefix: None }
    }
}

/// A symbolic link written into a generated manifest.
#[derive(Clone, Debug, PartialEq, Eq)]
pub struct SymlinkSpec {
    pub link: String,
    pub target: String,
}

/// Ghost model of a symbolic-link entry.
#[verifier::ext_equal]
pub ghost struct SymlinkV {
    pub link: Seq<char>,
    pub target: Seq<char>,
}

impl View for SymlinkSpec {
    type V = SymlinkV;

    open spec fn view(&self) -> SymlinkV {
        SymlinkV { link: self.link@, target: self.target@ }
    }
}

impl DeepView for SymlinkSpec {
    type V = SymlinkV;

    open spec fn deep_view(&self) -> SymlinkV {
        self.view()
    }
}

/// An input to job construction that resolves to one artifact.
#[derive(Clone, Debug, PartialEq, Eq)]
pub enum Layer {
    Tar { path: String },
    Paths { paths: Vec<String>, prefix_options: PrefixOptions },
    Glob { glob: String, prefix_options: PrefixOptions },
    Stubs { stubs: Vec<String> },
    Symlinks { symlinks: Vec<SymlinkSpec> },
}

/// Ghost model of a layer.
#[verifier::ext_equal]
pub ghost enum LayerV {
    Tar { path: Seq<char> },
    Paths { paths: Seq<Seq<char>>, prefix_options: PrefixOptionsV },
    Glob { glob: Seq<char>, prefix_options: PrefixOptionsV },
    Stubs { stubs: Seq<Seq<char>> },
    Symlinks { symlinks: Seq<SymlinkV> },
}

impl View for Layer {
    type V = LayerV;

    open spec fn view(&self) -> LayerV {
        match self {
            Layer::Tar { path } => LayerV::Tar { path: path@ },
            Layer::Paths { paths, prefix_options } => LayerV::Paths {
                paths: paths.deep_view(),
                prefix_options: prefix_options@,
            },
            Layer::Glob { glob, prefix_options } => LayerV::Glob {
                glob: glob@,
                prefix_options: prefix_options@,
            },
            Layer::Stubs { stubs } => LayerV::Stubs { stubs: stubs.deep_view() },
            Layer::Symlinks { symlinks } => LayerV::Symlinks { symlinks: symlinks.deep_view() },
        }
    }
}

impl DeepView for Layer {
    type V = LayerV;

    open spec fn deep_view(&self) -> LayerV {
        self.view()
    }
}

/// A container image and which of its properties the job inherits.
#[derive(Clone, Debug, PartialEq, Eq)]
pub struct ImageSpec {
    pub name: String,
    pub tag: String,
    pub use_environment: bool,
    pub use_layers: bool,
    pub use_working_directory: bool,
}

/// Ghost model of an image reference.
#[verifier::ext_equal]
pub ghost struct ImageV {
    pub name: Seq<char>,
    pub tag: Seq<char>,
    pub use_environment: bool,
    pub use_layers: bool,
    pub use_working_directory: bool,
}

impl View for ImageSpec {
    type V = ImageV;

    open spec fn view(&self) -> ImageV {
        ImageV {
            name: self.name@,
            tag: self.tag@,
            use_environment: self.use_environment,
            use_layers: self.use_layers,
            use_working_directory: self.use_working_directory,
        }
    }
}

/// A directive field that is either given explicitly or delegated to the
/// directive's image.
#[derive(Clone, Debug, PartialEq, Eq)]
pub enum PossiblyImage<T> {
    Explicit(T),
    Image,
}

/// Ghost counterpart of [`PossiblyImage`].
#[verifier::ext_equal]
pub ghost enum PossiblyImageV<T> {
    Explicit(T),
    Image,
}

/// One rule of the configuration: an optional filter plus optional field
/// overrides and additions.
pub struct TestDirective {
    pub filter: Option<Pattern>,
    pub image: Option<String>,
    pub include_shared_libraries: Option<bool>,
    pub network: Option<JobNetwork>,
    pub enable_writable_file_system: Option<bool>,
    pub user: Option<UserId>,
    pub group: Option<GroupId>,
    pub timeout: Option<Option<Timeout>>,
    pub layers: Option<PossiblyImage<Vec<Layer>>>,
    pub added_layers: Vec<Layer>,
    pub mounts: Option<Vec<JobMount>>,
    pub added_mounts: Vec<JobMount>,
    pub devices: Option<DeviceSet>,
    pub added_devices: DeviceSet,
    pub environment: Option<PossiblyImage<Vec<EnvVar>>>,
    pub added_environment: Vec<EnvVar>,
    pub working_directory: Option<PossiblyImage<String>>,
}

/// Ghost model of a directive. The filter is carried as the pattern value
/// itself; its meaning comes from [`eval_pattern`].
#[verifier::ext_equal]
pub ghost struct DirectiveV {
    pub filter: Option<Pattern>,
    pub image: Option<Seq<char>>,
    pub include_shared_libraries: Option<bool>,
    pub network: Option<JobNetwork>,
    pub enable_writable_file_system: Option<bool>,
    pub user: Option<u32>,
    pub group: Option<u32>,
    pub timeout: Option<Option<u32>>,
    pub layers: Option<PossiblyImageV<Seq<LayerV>>>,
    pub added_layers: Seq<LayerV>,
    pub mounts: Option<Seq<MountV>>,
    pub added_mounts: Seq<MountV>,
    pub devices: Option<DeviceSet>,
    pub added_devices: DeviceSet,
    pub environment: Option<PossiblyImageV<Seq<EnvVarV>>>,
    pub added_environment: Seq<EnvVarV>,
    pub working_directory: Option<PossiblyImageV<Seq<char>>>,
}

impl View for TestDirective {
    type V = DirectiveV;

    open spec fn view(&self) -> DirectiveV {
        DirectiveV {
            filter: self.filter,
            image: match &self.image {
                Some(s) => Some(s@),
                None => None,
            },
            include_shared_libraries: self.include_shared_libraries,
            network: self.network,
            enable_writable_file_system: self.enable_writable_file_system,
            user: match self.user {
                Some(u) => Some(u.0),
                None => None,
            },
            group: match self.group {
                Some(g) => Some(g.0),
                None => None,
            },
            timeout: match self.timeout {
                Some(Some(t)) => Some(Some(t.0)),
                Some(None) => Some(None),
                None => None,
            },
            layers: match &self.layers {
                Some(PossiblyImage::Explicit(ls)) => Some(
                    PossiblyImageV::Explicit(ls.deep_view()),
                ),
                Some(PossiblyImage::Image) => Some(PossiblyImageV::Image),
                None => None,
            },
            added_layers: self.added_layers.deep_view(),
            mounts: match &self.mounts {
                Some(ms) => Some(ms.deep_view()),
                None => None,
            },
            added_mounts: self.added_mounts.deep_view(),
            devices: self.devices,
            added_devices: self.added_devices,
            environment: match &self.environment {
                Some(PossiblyImage::Explicit(vars)) => Some(
                    PossiblyImageV::Explicit(vars.deep_view()),
                ),
                Some(PossiblyImage::Image) => Some(PossiblyImageV::Image),
                None => None,
            },
            added_environment: self.added_environment.deep_view(),
            working_directory: match &self.working_directory {
                Some(PossiblyImage::Explicit(s)) => Some(PossiblyImageV::Explicit(s@)),
                Some(PossiblyImage::Image) => Some(PossiblyImageV::Image),
                None => None,
            },
        }
    }
}

impl DeepView for JobMount {
    type V = MountV;

    open spec fn deep_view(&self) -> MountV {
        self.view()
    }
}

impl DeepView for TestDirective {
    type V = DirectiveV;

    open spec fn deep_view(&self) -> DirectiveV {
        self.view()
    }
}

/// The effective parameters of one job after the fold.
#[derive(Clone, Debug, PartialEq, Eq)]
pub struct TestMetadata {
    pub include_shared_libraries: Option<bool>,
    pub image: Option<ImageSpec>,
    pub network: JobNetwork,
    pub enable_writable_file_system: bool,
    pub working_directory: Option<String>,
    pub user: UserId,
    pub group: GroupId,
    pub timeout: Option<Timeout>,
    pub layers: Vec<Layer>,
    pub environment: Vec<EnvironmentSpec>,
    pub mounts: Vec<JobMount>,
    pub devices: DeviceSet,
}

/// Ghost model of the effective parameters.
#[verifier::ext_equal]
pub ghost struct MetadataV {
    pub include_shared_libraries: Option<bool>,
    pub image: Option<ImageV>,
    pub network: JobNetwork,
    pub enable_writable_file_system: bool,
    pub working_directory: Option<Seq<char>>,
    pub user: u32,
    pub group: u32,
    pub timeout: Option<u32>,
    pub layers: Seq<LayerV>,
    pub environment: Seq<EnvSpecV>,
    pub mounts: Seq<MountV>,
    pub devices: DeviceSet,
}

impl View for TestMetadata {
    type V = MetadataV;

    open spec fn view(&self) -> MetadataV {
        MetadataV {
            include_shared_libraries: self.include_shared_libraries,
            image: match &self.image {
                Some(i) => Some(i@),
                None => None,
            },
            network: self.network,
            enable_writable_file_system: self.enable_writable_file_system,
            working_directory: match &self.working_directory {
                Some(s) => Some(s@),
                None => None,
            },
            user: self.user.0,
            group: self.group.0,
            timeout: match self.timeout {
                Some(t) => Some(t.0),
                None => None,
            },
            layers: self.layers.deep_view(),
            environment: self.environment.deep_view(),
            mounts: self.mounts.deep_view(),
            devices: self.devices,
        }
    }
}

impl DeepView for EnvironmentSpec {
    type V = EnvSpecV;

    open spec fn deep_view(&self) -> EnvSpecV {
        self.view()
    }
}

/// The starting point of every fold: root working directory, root user and
/// group, no network, nothing else set.
pub open spec fn default_metadata() -> MetadataV {
    MetadataV {
        include_shared_libraries: None,
        image: None,
        network: JobNetwork::Disabled,
        enable_writable_file_system: false,
        working_directory: Some("/"@),
        user: 0,
        group: 0,
        timeout: None,
        layers: Seq::empty(),
        environment: Seq::empty(),
        mounts: Seq::empty(),
        devices: DeviceSet {
            full: false,
            null: false,
            random: false,
            tty: false,
            urandom: false,
            zero: false,
        },
    }
}

impl Default for TestMetadata {
    fn default() -> (r: Self)
        ensures
            r@ == default_metadata(),
    {
        let r = TestMetadata {
            include_shared_libraries: None,
            image: None,
            network: JobNetwork::Disabled,
            enable_writable_file_system: false,
            working_directory: Some(String::from_str("/")),
            user: UserId(0),
            group: GroupId(0),
            timeout: None,
            layers: Vec::new(),
            environment: Vec::new(),
            mounts: Vec::new(),
            devices: DeviceSet::empty(),
        };
        proof {
            assert(r.layers.deep_view() =~= Seq::<LayerV>::empty());
            assert(r.environment.deep_view() =~= Seq::<EnvSpecV>::empty());
            assert(r.mounts.deep_view() =~= Seq::<MountV>::empty());
            assert(r@ =~= default_metadata());
        }
        r
    }
}

/// Index of the first occurrence of `c` in `s`.
pub open spec fn first_idx(s: Seq<char>, c: char) -> Option<int>
    decreases s.len(),
{
    if s.len() == 0 {
        None
    } else if s[0] == c {
        Some(0)
    } else {
        match first_idx(s.skip(1), c) {
            Some(j) => Some(j + 1),
            None => None,
        }
    }
}

/// The image reference written `name[:tag]`, with the tag defaulting to
/// `latest` and no inheritance requested yet.
pub open spec fn image_of(name: Seq<char>) -> ImageV {
    match first_idx(name, ':') {
        Some(i) => ImageV {
            name: name.subrange(0, i),
            tag: name.subrange(i + 1, name.len() as int),
            use_environment: false,
            use_layers: false,
            use_working_directory: false,
        },
        None => ImageV {
            name: name,
            tag: "latest"@,
            use_environment: false,
            use_layers: false,
            use_working_directory: false,
        },
    }
}

/// Whether the directive delegates any field to an image.
pub open spec fn wants_image(d: DirectiveV) -> bool {
    ||| d.layers == Some(PossiblyImageV::<Seq<LayerV>>::Image)
    ||| d.environment == Some(PossiblyImageV::<Seq<EnvVarV>>::Image)
    ||| d.working_directory == Some(PossiblyImageV::<Seq<char>>::Image)
}

/// The layer list after one directive: replaced, cleared for the image, or
/// carried; then the added layers.
pub open spec fn layers_after(m: Seq<LayerV>, d: DirectiveV) -> Seq<LayerV> {
    (match d.layers {
        Some(PossiblyImageV::Explicit(ls)) => ls,
        Some(PossiblyImageV::Image) => Seq::empty(),
        None => m,
    }) + d.added_layers
}

/// The mount list after one directive: replaced or carried, then the added
/// mounts; duplicates are kept.
pub open spec fn mounts_after(m: Seq<MountV>, d: DirectiveV) -> Seq<MountV> {
    (match d.mounts {
        Some(ms) => ms,
        None => m,
    }) + d.added_mounts
}

/// The environment after one directive: an explicit map appends a
/// non-extending layer, a nonempty added map appends an extending one.
pub open spec fn environment_after(m: Seq<EnvSpecV>, d: DirectiveV) -> Seq<EnvSpecV> {
    m + (match d.environment {
        Some(PossiblyImageV::Explicit(vars)) => seq![EnvSpecV { vars, extend: false }],
        _ => Seq::empty(),
    }) + (if d.added_environment.len() > 0 {
        seq![EnvSpecV { vars: d.added_environment, extend: true }]
    } else {
        Seq::empty()
    })
}

/// The working directory after one directive: explicit, cleared in favour
/// of the image, or carried.
pub open spec fn working_directory_after(m: Option<Seq<char>>, d: DirectiveV) -> Option<
    Seq<char>,
> {
    match d.working_directory {
        Some(PossiblyImageV::Explicit(w)) => Some(w),
        Some(PossiblyImageV::Image) => None,
        None => m,
    }
}

/// The active image after one directive: the directive's own image, with
/// the inheritance flags it requested, else the carried one.
pub open spec fn image_after(m: Option<ImageV>, d: DirectiveV) -> Option<ImageV> {
    match d.image {
        Some(name) => Some(
            ImageV {
                use_layers: d.layers == Some(PossiblyImageV::<Seq<LayerV>>::Image),
                use_environment: d.environment == Some(PossiblyImageV::<Seq<EnvVarV>>::Image),
                use_working_directory: d.working_directory == Some(
                    PossiblyImageV::<Seq<char>>::Image,
                ),
                ..image_of(name)
            },
        ),
        None => m,
    }
}

/// Folding one directive into the running metadata. `None` is the one
/// error: a field delegated to an image in a directive that has none.
pub open spec fn fold_directive(m: MetadataV, d: DirectiveV) -> Option<MetadataV> {
    if wants_image(d) && d.image is None {
        None
    } else {
        Some(
            MetadataV {
                include_shared_libraries: match d.include_shared_libraries {
                    Some(v) => Some(v),
                    None => m.include_shared_libraries,
                },
                network: match d.network {
                    Some(n) => n,
                    None => m.network,
                },
                enable_writable_file_system: match d.enable_writable_file_system {
                    Some(e) => e,
                    None => m.enable_writable_file_system,
                },
                user: match d.user {
                    Some(u) => u,
                    None => m.user,
                },
                group: match d.group {
                    Some(g) => g,
                    None => m.group,
                },
                timeout: match d.timeout {
                    Some(t) => t,
                    None => m.timeout,
                },
                layers: layers_after(m.layers, d),
                mounts: mounts_after(m.mounts, d),
                devices: device_union(
                    match d.devices {
                        Some(ds) => ds,
                        None => m.devices,
                    },
                    d.added_devices,
                ),
                environment: environment_after(m.environment, d),
                working_directory: working_directory_after(m.working_directory, d),
                image: image_after(m.image, d),
            },
        )
    }
}

/// Folding a whole directive list, left to right.
pub open spec fn fold_directives(m: MetadataV, ds: Seq<DirectiveV>) -> Option<MetadataV>
    decreases ds.len(),
{
    if ds.len() == 0 {
        Some(m)
    } else {
        match fold_directive(m, ds[0]) {
            Some(m2) => fold_directives(m2, ds.skip(1)),
            None => None,
        }
    }
}

/// Whether a directive applies to a context: no filter, or a filter that is
/// decidedly true. An undecidable filter does not match.
pub open spec fn directive_matches(d: DirectiveV, c: Context) -> bool {
    match d.filter {
        Some(p) => eval_pattern(p, c) == Some(true),
        None => true,
    }
}

/// The directives retained for a context, in order.
pub open spec fn retained(ds: Seq<DirectiveV>, c: Context) -> Seq<DirectiveV> {
    ds.filter(|d: DirectiveV| directive_matches(d, c))
}

/// The image-inheritance error.
#[derive(Clone, Copy, Debug, PartialEq, Eq, Structural)]
pub enum MetadataError {
    NoImage,
}

impl MetadataError {
    /// A human-readable rendering of the error.
    pub fn message(&self) -> (r: &'static str) {
        "no image provided"
    }
}

fn clone_string(s: &String) -> (r: String)
    ensures
        r == *s,
{
    s.clone()
}

fn clone_strings(v: &Vec<String>) -> (r: Vec<String>)
    ensures
        r.deep_view() == v.deep_view(),
        r@.len() == v@.len(),
{
    let mut out: Vec<String> = Vec::new();
    let mut i: usize = 0;
    while i < v.len()
        invariant
            i <= v@.len(),
            out@.len() == i as nat,
            forall|j: int| 0 <= j < i ==> out@[j] == v@[j],
        decreases v@.len() - i,
    {
        out.push(clone_string(&v[i]));
        i = i + 1;
    }
    proof {
        assert(out.deep_view() =~= v.deep_view());
    }
    out
}

fn clone_opt_string(s: &Option<String>) -> (r: Option<String>)
    ensures
        r == *s,
{
    match s {
        Some(x) => Some(clone_string(x)),
        None => None,
    }
}

fn clone_prefix_options(p: &PrefixOptions) -> (r: PrefixOptions)
    ensures
        r == *p,
{
    PrefixOptions {
        canonicalize: p.canonicalize,
        strip_prefix: clone_opt_string(&p.strip_prefix),
        prepend_prefix: clone_opt_string(&p.prepend_prefix),
    }
}

fn clone_symlinks(v: &Vec<SymlinkSpec>) -> (r: Vec<SymlinkSpec>)
    ensures
        r@.len() == v@.len(),
        forall|j: int| 0 <= j < v@.len() ==> r@[j] == v@[j],
{
    let mut out: Vec<SymlinkSpec> = Vec::new();
    let mut i: usize = 0;
    while i < v.len()
        invariant
            i <= v@.len(),
            out@.len() == i as nat,
            forall|j: int| 0 <= j < i ==> out@[j] == v@[j],
        decreases v@.len() - i,
    {
        let s = &v[i];
        out.push(SymlinkSpec { link: clone_string(&s.link), target: clone_string(&s.target) });
        i = i + 1;
    }
    out
}

/// A structurally equal copy of a layer.
pub fn clone_layer(l: &Layer) -> (r: Layer)
    ensures
        r@ == l@,
{
    match l {
        Layer::Tar { path } => Layer::Tar { path: clone_string(path) },
        Layer::Paths { paths, prefix_options } => Layer::Paths {
            paths: clone_strings(paths),
            prefix_options: clone_prefix_options(prefix_options),
        },
        Layer::Glob { glob, prefix_options } => Layer::Glob {
            glob: clone_string(glob),
            prefix_options: clone_prefix_options(prefix_options),
        },
        Layer::Stubs { stubs } => Layer::Stubs { stubs: clone_strings(stubs) },
        Layer::Symlinks { symlinks } => {
            let r = Layer::Symlinks { symlinks: clone_symlinks(symlinks) };
            proof {
                assert(r->Symlinks_symlinks.deep_view() =~= symlinks.deep_view());
            }
            r
        },
    }
}

/// A copy of a layer list with the same view.
pub fn clone_layers(v: &Vec<Layer>) -> (r: Vec<Layer>)
    ensures
        r.deep_view() == v.deep_view(),
{
    let mut out: Vec<Layer> = Vec::new();
    let mut i: usize = 0;
    while i < v.len()
        invariant
            i <= v@.len(),
            out@.len() == i as nat,
            forall|j: int| 0 <= j < i ==> out@[j]@ == v@[j]@,
        decreases v@.len() - i,
    {
        out.push(clone_layer(&v[i]));
        i = i + 1;
    }
    proof {
        assert(out.deep_view() =~= v.deep_view());
    }
    out
}

fn clone_mounts(v: &Vec<JobMount>) -> (r: Vec<JobMount>)
    ensures
        r.deep_view() == v.deep_view(),
{
    let mut out: Vec<JobMount> = Vec::new();
    let mut i: usize = 0;
    while i < v.len()
        invariant
            i <= v@.len(),
            out@.len() == i as nat,
            forall|j: int| 0 <= j < i ==> out@[j]@ == v@[j]@,
        decreases v@.len() - i,
    {
        let m = &v[i];
        let c = match m {
            JobMount::Proc { mount_point } => JobMount::Proc {
                mount_point: clone_string(mount_point),
            },
            JobMount::Tmp { mount_point } => JobMount::Tmp {
                mount_point: clone_string(mount_point),
            },
            JobMount::Sys { mount_point } => JobMount::Sys {
                mount_point: clone_string(mount_point),
            },
        };
        out.push(c);
        i = i + 1;
    }
    proof {
        assert(out.deep_view() =~= v.deep_view());
    }
    out
}

fn clone_env_vars(v: &Vec<EnvVar>) -> (r: Vec<EnvVar>)
    ensures
        r.deep_view() == v.deep_view(),
{
    let mut out: Vec<EnvVar> = Vec::new();
    let mut i: usize = 0;
    while i < v.len()
        invariant
            i <= v@.len(),
            out@.len() == i as nat,
            forall|j: int| 0 <= j < i ==> out@[j] == v@[j],
        decreases v@.len() - i,
    {
        let e = &v[i];
        out.push(EnvVar { key: clone_string(&e.key), value: clone_string(&e.value) });
        i = i + 1;
    }
    proof {
        assert(out.deep_view() =~= v.deep_view());
    }
    out
}

impl TestMetadata {
    /// Whether a layer of shared-library dependencies should be included:
    /// what was set explicitly, else only when no layers were chosen.
    pub fn include_shared_libraries(&self) -> (r: bool)
        ensures
            r == match self@.include_shared_libraries {
                Some(v) => v,
                None => self@.layers.len() == 0,
            },
    {
        match self.include_shared_libraries {
            Some(val) => val,
            None => self.layers.len() == 0,
        }
    }

    /// Fold one directive into these parameters.
    #[verifier::rlimit(50)]
    pub fn try_fold(self, d: &TestDirective) -> (r: Result<TestMetadata, MetadataError>)
        ensures
            match r {
                Ok(out) => fold_directive(self@, d@) == Some(out@),
                Err(_) => fold_directive(self@, d@) is None,
            },
    {
        let wants = match (&d.layers, &d.environment, &d.working_directory) {
            (Some(PossiblyImage::Image), _, _) => true,
            (_, Some(PossiblyImage::Image), _) => true,
            (_, _, Some(PossiblyImage::Image)) => true,
            _ => false,
        };
        if wants && d.image.is_none() {
            return Err(MetadataError::NoImage);
        }

        let include_shared_libraries = match d.include_shared_libraries {
            Some(v) => Some(v),
            None => self.include_shared_libraries,
        };
        let network = match d.network {
            Some(n) => n,
            None => self.network,
        };
        let enable_writable_file_system = match d.enable_writable_file_system {
            Some(e) => e,
            None => self.enable_writable_file_system,
        };
        let user = match d.user {
            Some(u) => u,
            None => self.user,
        };
        let group = match d.group {
            Some(g) => g,
            None => self.group,
        };
        let timeout = match d.timeout {
            Some(t) => t,
            None => self.timeout,
        };
        let layers = build_layers(self.layers, d);
        let mounts = build_mounts(self.mounts, d);
        let devices = match d.devices {
            Some(ds) => ds,
            None => self.devices,
        }.union(d.added_devices);
        let environment = build_environment(self.environment, d);
        let working_directory = match &d.working_directory {
            Some(PossiblyImage::Explicit(w)) => Some(clone_string(w)),
            Some(PossiblyImage::Image) => None,
            None => self.working_directory,
        };
        let image = build_image(self.image, d);

        let out = TestMetadata {
            include_shared_libraries,
            image,
            network,
            enable_writable_file_system,
            working_directory,
            user,
            group,
            timeout,
            layers,
            environment,
            mounts,
            devices,
        };
        proof {
            let expect = fold_directive(self@, d@)->Some_0;
            assert(out@ =~= expect);
        }
        Ok(out)
    }
}

/// Append a structurally equal copy of each layer of `src` to `dst`.
fn append_layers(dst: &mut Vec<Layer>, src: &Vec<Layer>)
    ensures
        final(dst).deep_view() == old(dst).deep_view() + src.deep_view(),
{
    let ghost d0 = old(dst)@;
    let mut i: usize = 0;
    while i < src.len()
        invariant
            i <= src@.len(),
            dst@.len() == d0.len() + i,
            forall|k: int| 0 <= k < d0.len() ==> dst@[k] == d0[k],
            forall|j: int| d0.len() <= j < dst@.len() ==> #[trigger] dst@[j]@ == src@[
                j - d0.len()
            ]@,
        decreases src@.len() - i,
    {
        dst.push(clone_layer(&src[i]));
        i = i + 1;
    }
    proof {
        assert(dst.deep_view() =~= old(dst).deep_view() + src.deep_view());
    }
}

/// Append a structurally equal copy of each mount of `src` to `dst`.
fn append_mounts(dst: &mut Vec<JobMount>, src: &Vec<JobMount>)
    ensures
        final(dst).deep_view() == old(dst).deep_view() + src.deep_view(),
{
    let ghost d0 = old(dst)@;
    let mut i: usize = 0;
    while i < src.len()
        invariant
            i <= src@.len(),
            dst@.len() == d0.len() + i,
            forall|k: int| 0 <= k < d0.len() ==> dst@[k] == d0[k],
            forall|j: int| d0.len() <= j < dst@.len() ==> #[trigger] dst@[j]@ == src@[
                j - d0.len()
            ]@,
        decreases src@.len() - i,
    {
        let c = match &src[i] {
            JobMount::Proc { mount_point } => JobMount::Proc {
                mount_point: clone_string(mount_point),
            },
            JobMount::Tmp { mount_point } => JobMount::Tmp {
                mount_point: clone_string(mount_point),
            },
            JobMount::Sys { mount_point } => JobMount::Sys {
                mount_point: clone_string(mount_point),
            },
        };
        dst.push(c);
        i = i + 1;
    }
    proof {
        assert(dst.deep_view() =~= old(dst).deep_view() + src.deep_view());
    }
}

/// The layer list after a directive, as executable code.
fn build_layers(base: Vec<Layer>, d: &TestDirective) -> (r: Vec<Layer>)
    ensures
        r.deep_view() == layers_after(base.deep_view(), d@),
{
    let mut layers: Vec<Layer> = match &d.layers {
        Some(PossiblyImage::Explicit(ls)) => clone_layers(ls),
        Some(PossiblyImage::Image) => Vec::new(),
        None => base,
    };
    proof {
        if d@.layers matches Some(PossiblyImageV::Image) {
            assert(layers.deep_view() =~= Seq::<LayerV>::empty());
        }
    }
    append_layers(&mut layers, &d.added_layers);
    layers
}

/// The mount list after a directive, as executable code.
fn build_mounts(base: Vec<JobMount>, d: &TestDirective) -> (r: Vec<JobMount>)
    ensures
        r.deep_view() == mounts_after(base.deep_view(), d@),
{
    let mut mounts: Vec<JobMount> = match &d.mounts {
        Some(ms) => clone_mounts(ms),
        None => base,
    };
    append_mounts(&mut mounts, &d.added_mounts);
    mounts
}

/// The environment after a directive, as executable code.
fn build_environment(base: Vec<EnvironmentSpec>, d: &TestDirective) -> (r: Vec<EnvironmentSpec>)
    ensures
        r.deep_view() == environment_after(base.deep_view(), d@),
{
    let ghost base_v = base.deep_view();
    let mut environment = base;
    match &d.environment {
        Some(PossiblyImage::Explicit(vars)) => {
            environment.push(EnvironmentSpec { vars: clone_env_vars(vars), extend: false });
            proof {
                assert(environment.deep_view() =~= base_v + seq![
                    EnvSpecV { vars: d@.environment->Some_0->Explicit_0, extend: false },
                ]);
            }
        },
        _ => {},
    }
    let ghost mid_v = environment.deep_view();
    if d.added_environment.len() > 0 {
        environment.push(
            EnvironmentSpec { vars: clone_env_vars(&d.added_environment), extend: true },
        );
        proof {
            assert(environment.deep_view() =~= mid_v + seq![
                EnvSpecV { vars: d@.added_environment, extend: true },
            ]);
        }
    }
    proof {
        assert(environment.deep_view() =~= environment_after(base_v, d@));
    }
    environment
}

/// The active image after a directive, as executable code.
fn build_image(cur: Option<ImageSpec>, d: &TestDirective) -> (r: Option<ImageSpec>)
    ensures
        match r {
            Some(i) => image_after(
                match cur {
                    Some(c) => Some(c@),
                    None => None,
                },
                d@,
            ) == Some(i@),
            None => image_after(
                match cur {
                    Some(c) => Some(c@),
                    None => None,
                },
                d@,
            ) is None,
        },
{
    match &d.image {
        Some(name) => {
            let mut base = parse_image(name);
            base.use_layers = matches!(&d.layers, Some(PossiblyImage::Image));
            base.use_environment = matches!(&d.environment, Some(PossiblyImage::Image));
            base.use_working_directory = matches!(
                &d.working_directory,
                Some(PossiblyImage::Image),
            );
            proof {
                assert(base@ =~= image_after(
                    match cur {
                        Some(c) => Some(c@),
                        None => None,
                    },
                    d@,
                )->Some_0);
            }
            Some(base)
        },
        None => cur,
    }
}

/// Parse an image reference `name[:tag]`, the tag defaulting to `latest`.
pub fn parse_image(name: &String) -> (r: ImageSpec)
    ensures
        r@ == image_of(name@),
{
    let cs = crate::text::chars_of(name.as_str());
    let len = cs.len();
    match crate::text::find_char(&cs, ':') {
        Some(i) => {
            let n = crate::text::slice_chars(&cs, 0, i);
            let t = crate::text::slice_chars(&cs, i + 1, len);
            proof {
                lemma_first_idx_found(name@, ':', i as int);
            }
            ImageSpec {
                name: crate::text::string_of(&n),
                tag: crate::text::string_of(&t),
                use_environment: false,
                use_layers: false,
                use_working_directory: false,
            }
        },
        None => {
            proof {
                lemma_first_idx_not_found(name@, ':');
            }
            ImageSpec {
                name: clone_string(name),
                tag: String::from_str("latest"),
                use_environment: false,
                use_layers: false,
                use_working_directory: false,
            }
        },
    }
}

/// If `i` is the first position holding `c`, then `first_idx` says so.
proof fn lemma_first_idx_found(s: Seq<char>, c: char, i: int)
    requires
        0 <= i < s.len(),
        s[i] == c,
        forall|j: int| 0 <= j < i ==> s[j] != c,
    ensures
        first_idx(s, c) == Some(i),
    decreases i,
{
    if i == 0 {
    } else {
        lemma_first_idx_found(s.skip(1), c, i - 1);
    }
}

/// If no position holds `c`, then `first_idx` finds none.
proof fn lemma_first_idx_not_found(s: Seq<char>, c: char)
    requires
        forall|j: int| 0 <= j < s.len() ==> s[j] != c,
    ensures
        first_idx(s, c) is None,
    decreases s.len(),
{
    if s.len() > 0 {
        lemma_first_idx_not_found(s.skip(1), c);
    }
}

/// Whether a filter decidedly selects this context.
pub fn pattern_match(filter: &Pattern, context: &Context) -> (r: bool)
    ensures
        r == (eval_pattern(*filter, *context) == Some(true)),
{
    match interpret_pattern(filter, context) {
        Some(true) => true,
        _ => false,
    }
}

/// The variable assignments substituted into layer paths. A reference is
/// written `<key>` and is replaced by the value.
pub struct TemplateVars {
    pub vars: Vec<EnvVar>,
}

/// The whole configuration: an ordered list of directives.
pub struct AllMetadata {
    pub directives: Vec<TestDirective>,
}

impl View for AllMetadata {
    type V = Seq<DirectiveV>;

    open spec fn view(&self) -> Seq<DirectiveV> {
        self.directives.deep_view()
    }
}

/// `fold_directives` over a concatenation runs the two parts in sequence.
pub proof fn lemma_fold_directives_app(m: MetadataV, a: Seq<DirectiveV>, b: Seq<DirectiveV>)
    ensures
        fold_directives(m, a + b) == match fold_directives(m, a) {
            Some(x) => fold_directives(x, b),
            None => None,
        },
    decreases a.len(),
{
    if a.len() == 0 {
        assert(a + b =~= b);
    } else {
        assert((a + b)[0] == a[0]);
        assert((a + b).skip(1) =~= a.skip(1) + b);
        match fold_directive(m, a[0]) {
            Some(m2) => {
                lemma_fold_directives_app(m2, a.skip(1), b);
            },
            None => {},
        }
    }
}

/// Appending one directive to a filtered list.
proof fn lemma_retained_push(ds: Seq<DirectiveV>, c: Context, i: int)
    requires
        0 <= i < ds.len(),
    ensures
        retained(ds.take(i + 1), c) == if directive_matches(ds[i], c) {
            retained(ds.take(i), c).push(ds[i])
        } else {
            retained(ds.take(i), c)
        },
{
    reveal(Seq::filter);
    let s = ds.take(i + 1);
    assert(s.drop_last() =~= ds.take(i));
    assert(s.last() == ds[i]);
}

/// Folding the empty directive list yields the default metadata, whatever
/// the context.
pub proof fn lemma_empty_fold_is_default(c: Context)
    ensures
        fold_directives(default_metadata(), retained(Seq::<DirectiveV>::empty(), c)) == Some(
            default_metadata(),
        ),
{
    reveal(Seq::filter);
}

/// Scalar fields are monotone in directive provenance: every scalar in the
/// fold's result is either the starting value or was set by some directive
/// of the list. Removing a directive therefore cannot introduce a scalar
/// value that no retained directive set.
pub proof fn lemma_fold_scalar_provenance(m0: MetadataV, ds: Seq<DirectiveV>, out: MetadataV)
    requires
        fold_directives(m0, ds) == Some(out),
    ensures
        out.user == m0.user || exists|i: int|
            0 <= i < ds.len() && #[trigger] ds[i].user == Some(out.user),
        out.group == m0.group || exists|i: int|
            0 <= i < ds.len() && #[trigger] ds[i].group == Some(out.group),
        out.network == m0.network || exists|i: int|
            0 <= i < ds.len() && #[trigger] ds[i].network == Some(out.network),
        out.timeout == m0.timeout || exists|i: int|
            0 <= i < ds.len() && #[trigger] ds[i].timeout == Some(out.timeout),
        out.enable_writable_file_system == m0.enable_writable_file_system || exists|i: int|
            0 <= i < ds.len() && #[trigger] ds[i].enable_writable_file_system == Some(
                out.enable_writable_file_system,
            ),
        out.include_shared_libraries == m0.include_shared_libraries || exists|i: int|
            0 <= i < ds.len() && #[trigger] ds[i].include_shared_libraries == Some(
                out.include_shared_libraries->Some_0,
            ),
    decreases ds.len(),
{
    if ds.len() > 0 {
        let m1 = fold_directive(m0, ds[0])->Some_0;
        lemma_fold_scalar_provenance(m1, ds.skip(1), out);
        if out.user != m1.user {
            let j = choose|j: int| 0 <= j < ds.skip(1).len() && #[trigger] ds.skip(1)[j].user
                == Some(out.user);
            assert(ds[j + 1].user == Some(out.user));
        } else if out.user != m0.user {
            assert(ds[0].user == Some(out.user));
        }
        if out.group != m1.group {
            let j = choose|j: int| 0 <= j < ds.skip(1).len() && #[trigger] ds.skip(1)[j].group
                == Some(out.group);
            assert(ds[j + 1].group == Some(out.group));
        } else if out.group != m0.group {
            assert(ds[0].group == Some(out.group));
        }
        if out.network != m1.network {
            let j = choose|j: int| 0 <= j < ds.skip(1).len() && #[trigger] ds.skip(1)[j].network
                == Some(out.network);
            assert(ds[j + 1].network == Some(out.network));
        } else if out.network != m0.network {
            assert(ds[0].network == Some(out.network));
        }
        if out.timeout != m1.timeout {
            let j = choose|j: int| 0 <= j < ds.skip(1).len() && #[trigger] ds.skip(1)[j].timeout
                == Some(out.timeout);
            assert(ds[j + 1].timeout == Some(out.timeout));
        } else if out.timeout != m0.timeout {
            assert(ds[0].timeout == Some(out.timeout));
        }
        if out.enable_writable_file_system != m1.enable_writable_file_system {
            let j = choose|j: int|
                0 <= j < ds.skip(1).len() && #[trigger] ds.skip(1)[j].enable_writable_file_system
                    == Some(out.enable_writable_file_system);
            assert(ds[j + 1].enable_writable_file_system == Some(
                out.enable_writable_file_system,
            ));
        } else if out.enable_writable_file_system != m0.enable_writable_file_system {
            assert(ds[0].enable_writable_file_system == Some(out.enable_writable_file_system));
        }
        if out.include_shared_libraries != m1.include_shared_libraries {
            let j = choose|j: int|
                0 <= j < ds.skip(1).len() && #[trigger] ds.skip(1)[j].include_shared_libraries
                    == Some(out.include_shared_libraries->Some_0);
            assert(ds[j + 1].include_shared_libraries == Some(
                out.include_shared_libraries->Some_0,
            ));
        } else if out.include_shared_libraries != m0.include_shared_libraries {
            assert(ds[0].include_shared_libraries == Some(
                out.include_shared_libraries->Some_0,
            ));
        }
    }
}

impl AllMetadata {
    /// The effective metadata for one test case: the default, folded over
    /// every directive whose filter decidedly selects the context.
    pub fn get_metadata_for_test(&self, context: &Context) -> (r: Result<
        TestMetadata,
        MetadataError,
    >)
        ensures
            match r {
                Ok(out) => fold_directives(default_metadata(), retained(self@, *context))
                    == Some(out@),
                Err(_) => fold_directives(default_metadata(), retained(self@, *context)) is None,
            },
    {
        let mut acc = TestMetadata::default();
        let mut i: usize = 0;
        proof {
            reveal(Seq::filter);
            assert(self@.take(0) =~= Seq::<DirectiveV>::empty());
        }
        while i < self.directives.len()
            invariant
                i <= self@.len(),
                self@ == self.directives.deep_view(),
                fold_directives(default_metadata(), retained(self@.take(i as int), *context))
                    == Some(acc@),
            decreases self@.len() - i,
        {
            let d = &self.directives[i];
            proof {
                assert(self@[i as int] == d@);
            }
            let matches = match &d.filter {
                Some(f) => pattern_match(f, context),
                None => true,
            };
            proof {
                assert(matches == directive_matches(self@[i as int], *context));
                lemma_retained_push(self@, *context, i as int);
            }
            if matches {
                let ghost pre = retained(self@.take(i as int), *context);
                match acc.try_fold(d) {
                    Ok(next) => {
                        proof {
                            reveal_with_fuel(fold_directives, 3);
                            lemma_fold_directives_app(default_metadata(), pre, seq![d@]);
                            assert(seq![d@].skip(1) =~= Seq::<DirectiveV>::empty());
                            assert(seq![d@][0] == d@);
                            assert(fold_directives(acc@, seq![d@]) == Some(next@));
                            assert(pre.push(d@) =~= pre + seq![d@]);
                            assert(retained(self@.take(i + 1 as int), *context) == pre.push(d@));
                            assert(fold_directives(
                                default_metadata(),
                                retained(self@.take(i + 1 as int), *context),
                            ) == Some(next@));
                        }
                        acc = next;
                    },
                    Err(e) => {
                        proof {
                            reveal_with_fuel(fold_directives, 3);
                            lemma_fold_directives_app(default_metadata(), pre, seq![d@]);
                            assert(seq![d@].skip(1) =~= Seq::<DirectiveV>::empty());
                            assert(pre.push(d@) =~= pre + seq![d@]);
                            let upto = retained(self@.take(i + 1 as int), *context);
                            assert(self@ =~= self@.take(i + 1 as int) + self@.skip(i + 1 as int));
                            Seq::filter_distributes_over_add(
                                self@.take(i + 1 as int),
                                self@.skip(i + 1 as int),
                                |dd: DirectiveV| directive_matches(dd, *context),
                            );
                            lemma_fold_directives_app(
                                default_metadata(),
                                upto,
                                retained(self@.skip(i + 1 as int), *context),
                            );
                        }
                        return Err(e);
                    },
                }
            }
            i = i + 1;
        }
        proof {
            assert(self@.take(self@.len() as int) =~= self@);
        }
        Ok(acc)
    }

    /// The same fold; the environment needs no separate treatment here.
    pub fn get_metadata_for_test_with_env(&self, context: &Context) -> (r: Result<
        TestMetadata,
        MetadataError,
    >)
        ensures
            match r {
                Ok(out) => fold_directives(default_metadata(), retained(self@, *context))
                    == Some(out@),
                Err(_) => fold_directives(default_metadata(), retained(self@, *context)) is None,
            },
    {
        self.get_metadata_for_test(context)
    }
}

/// The one directive of the built-in configuration: no network, private
/// root, stub entries for the special filesystems and devices, and the
/// commonly used device files.
pub open spec fn default_directive() -> DirectiveV {
    DirectiveV {
        filter: None,
        image: None,
        include_shared_libraries: Some(true),
        network: Some(JobNetwork::Disabled),
        enable_writable_file_system: Some(false),
        user: Some(0),
        group: Some(0),
        timeout: None,
        working_directory: Some(PossiblyImageV::Explicit("/"@)),
        layers: Some(
            PossiblyImageV::Explicit(
                seq![
                    LayerV::Stubs {
                        stubs: seq![
                            "/{proc,sys,tmp}/"@,
                            "/dev/{full,null,random,urandom,zero}"@,
                        ],
                    },
                ],
            ),
        ),
        added_layers: Seq::empty(),
        mounts: Some(
            seq![
                MountV::Tmp { mount_point: "/tmp"@ },
                MountV::Proc { mount_point: "/proc"@ },
                MountV::Sys { mount_point: "/sys"@ },
            ],
        ),
        added_mounts: Seq::empty(),
        devices: Some(
            DeviceSet { full: true, null: true, random: true, tty: false, urandom: true, zero: true },
        ),
        added_devices: DeviceSet {
            full: false,
            null: false,
            random: false,
            tty: false,
            urandom: false,
            zero: false,
        },
        environment: None,
        added_environment: Seq::empty(),
    }
}

impl Default for AllMetadata {
    /// The configuration used when no directive file exists.
    fn default() -> (r: Self)
        ensures
            r@ == seq![default_directive()],
    {
        let mut stubs: Vec<String> = Vec::new();
        stubs.push(String::from_str("/{proc,sys,tmp}/"));
        stubs.push(String::from_str("/dev/{full,null,random,urandom,zero}"));
        let mut layers: Vec<Layer> = Vec::new();
        layers.push(Layer::Stubs { stubs });
        let mut mounts: Vec<JobMount> = Vec::new();
        mounts.push(JobMount::Tmp { mount_point: String::from_str("/tmp") });
        mounts.push(JobMount::Proc { mount_point: String::from_str("/proc") });
        mounts.push(JobMount::Sys { mount_point: String::from_str("/sys") });
        let devices = DeviceSet::empty().with(JobDevice::Full).with(JobDevice::Null).with(
            JobDevice::Random,
        ).with(JobDevice::Urandom).with(JobDevice::Zero);
        let directive = TestDirective {
            filter: None,
            image: None,
            include_shared_libraries: Some(true),
            network: Some(JobNetwork::Disabled),
            enable_writable_file_system: Some(false),
            user: Some(UserId(0)),
            group: Some(GroupId(0)),
            timeout: None,
            working_directory: Some(PossiblyImage::Explicit(String::from_str("/"))),
            layers: Some(PossiblyImage::Explicit(layers)),
            added_layers: Vec::new(),
            mounts: Some(mounts),
            added_mounts: Vec::new(),
            devices: Some(devices),
            added_devices: DeviceSet::empty(),
            environment: None,
            added_environment: Vec::new(),
        };
        let mut directives: Vec<TestDirective> = Vec::new();
        directives.push(directive);
        let r = AllMetadata { directives };
        proof {
            assert(r@ =~~= seq![default_directive()]);
        }
        r
    }
}

/// `s` with each variable of `vars`, written `<key>`, replaced by its
/// value, applied in order.
pub open spec fn subst_vars(s: Seq<char>, vars: Seq<EnvVarV>) -> Seq<char>
    decreases vars.len(),
{
    if vars.len() == 0 {
        s
    } else {
        subst_vars(
            crate::text::replace_all(s, seq!['<'] + vars[0].key + seq!['>'], vars[0].value),
            vars.skip(1),
        )
    }
}

/// A layer with every string field template-substituted.
pub open spec fn subst_layer(l: LayerV, vars: Seq<EnvVarV>) -> LayerV {
    match l {
        LayerV::Tar { path } => LayerV::Tar { path: subst_vars(path, vars) },
        LayerV::Paths { paths, prefix_options } => LayerV::Paths {
            paths: paths.map_values(|p: Seq<char>| subst_vars(p, vars)),
            prefix_options,
        },
        LayerV::Glob { glob, prefix_options } => LayerV::Glob {
            glob: subst_vars(glob, vars),
            prefix_options,
        },
        LayerV::Stubs { stubs } => LayerV::Stubs {
            stubs: stubs.map_values(|p: Seq<char>| subst_vars(p, vars)),
        },
        LayerV::Symlinks { symlinks } => LayerV::Symlinks { symlinks },
    }
}

fn subst_string(s: &String, vars: &TemplateVars) -> (r: String)
    ensures
        r@ == subst_vars(s@, vars.vars.deep_view()),
{
    let mut cs = crate::text::chars_of(s.as_str());
    let mut i: usize = 0;
    proof {
        assert(vars.vars.deep_view().skip(0) =~= vars.vars.deep_view());
    }
    while i < vars.vars.len()
        invariant
            i <= vars.vars@.len(),
            subst_vars(cs@, vars.vars.deep_view().skip(i as int)) == subst_vars(
                s@,
                vars.vars.deep_view(),
            ),
        decreases vars.vars@.len() - i,
    {
        let v = &vars.vars[i];
        let mut pat: Vec<char> = Vec::new();
        pat.push('<');
        let key = crate::text::chars_of(v.key.as_str());
        let mut k: usize = 0;
        while k < key.len()
            invariant
                k <= key@.len(),
                pat@ == seq!['<'] + key@.subrange(0, k as int),
            decreases key@.len() - k,
        {
            pat.push(key[k]);
            proof {
                assert(pat@ =~= seq!['<'] + key@.subrange(0, k + 1 as int));
            }
            k = k + 1;
        }
        pat.push('>');
        proof {
            assert(key@.subrange(0, key@.len() as int) =~= key@);
            assert(pat@ =~= seq!['<'] + v.key@ + seq!['>']);
        }
        let rep = crate::text::chars_of(v.value.as_str());
        let ghost before = cs@;
        cs = crate::text::replace_all_chars(&cs, &pat, &rep);
        proof {
            let vs = vars.vars.deep_view();
            assert(vs[i as int] == v@);
            assert(vs.skip(i as int)[0] == vs[i as int]);
            assert(vs.skip(i as int).skip(1) =~= vs.skip(i + 1 as int));
            assert(subst_vars(before, vs.skip(i as int)) == subst_vars(
                cs@,
                vs.skip(i + 1 as int),
            ));
        }
        i = i + 1;
    }
    proof {
        assert(vars.vars.deep_view().skip(vars.vars@.len() as int)
            =~= Seq::<EnvVarV>::empty());
    }
    crate::text::string_of(&cs)
}

fn subst_strings(v: &Vec<String>, vars: &TemplateVars) -> (r: Vec<String>)
    ensures
        r.deep_view() == v.deep_view().map_values(
            |p: Seq<char>| subst_vars(p, vars.vars.deep_view()),
        ),
{
    let mut out: Vec<String> = Vec::new();
    let mut i: usize = 0;
    while i < v.len()
        invariant
            i <= v@.len(),
            out@.len() == i as nat,
            forall|j: int| 0 <= j < i ==> #[trigger] out@[j]@ == subst_vars(
                v@[j]@,
                vars.vars.deep_view(),
            ),
        decreases v@.len() - i,
    {
        out.push(subst_string(&v[i], vars));
        i = i + 1;
    }
    proof {
        assert(out.deep_view() =~= v.deep_view().map_values(
            |p: Seq<char>| subst_vars(p, vars.vars.deep_view()),
        ));
    }
    out
}

/// One layer, template-substituted.
pub fn replace_layer_template_vars(l: &Layer, vars: &TemplateVars) -> (r: Layer)
    ensures
        r@ == subst_layer(l@, vars.vars.deep_view()),
{
    match l {
        Layer::Tar { path } => Layer::Tar { path: subst_string(path, vars) },
        Layer::Paths { paths, prefix_options } => Layer::Paths {
            paths: subst_strings(paths, vars),
            prefix_options: clone_prefix_options(prefix_options),
        },
        Layer::Glob { glob, prefix_options } => Layer::Glob {
            glob: subst_string(glob, vars),
            prefix_options: clone_prefix_options(prefix_options),
        },
        Layer::Stubs { stubs } => Layer::Stubs { stubs: subst_strings(stubs, vars) },
        Layer::Symlinks { symlinks } => {
            let r = Layer::Symlinks { symlinks: clone_symlinks(symlinks) };
            proof {
                assert(r->Symlinks_symlinks.deep_view() =~= symlinks.deep_view());
            }
            r
        },
    }
}

/// A directive with all layer paths template-substituted; every other field
/// is unchanged.
pub open spec fn subst_directive(d: DirectiveV, vars: Seq<EnvVarV>) -> DirectiveV {
    DirectiveV {
        layers: match d.layers {
            Some(PossiblyImageV::Explicit(ls)) => Some(
                PossiblyImageV::Explicit(ls.map_values(|l: LayerV| subst_layer(l, vars))),
            ),
            other => other,
        },
        added_layers: d.added_layers.map_values(|l: LayerV| subst_layer(l, vars)),
        ..d
    }
}

fn subst_layers(v: &Vec<Layer>, vars: &TemplateVars) -> (r: Vec<Layer>)
    ensures
        r.deep_view() == v.deep_view().map_values(
            |l: LayerV| subst_layer(l, vars.vars.deep_view()),
        ),
{
    let mut out: Vec<Layer> = Vec::new();
    let mut i: usize = 0;
    while i < v.len()
        invariant
            i <= v@.len(),
            out@.len() == i as nat,
            forall|j: int| 0 <= j < i ==> #[trigger] out@[j]@ == subst_layer(
                v@[j]@,
                vars.vars.deep_view(),
            ),
        decreases v@.len() - i,
    {
        out.push(replace_layer_template_vars(&v[i], vars));
        i = i + 1;
    }
    proof {
        assert(out.deep_view() =~= v.deep_view().map_values(
            |l: LayerV| subst_layer(l, vars.vars.deep_view()),
        ));
    }
    out
}

impl AllMetadata {
    /// Substitute template variables, written `<key>`, into every layer
    /// path of every directive. Nothing else changes.
    pub fn replace_template_vars(&mut self, vars: &TemplateVars) -> (r: Result<
        (),
        MetadataError,
    >)
        ensures
            r is Ok,
            final(self)@ == old(self)@.map_values(
                |d: DirectiveV| subst_directive(d, vars.vars.deep_view()),
            ),
    {
        let ghost orig: Seq<TestDirective> = old(self).directives@;
        let n0: usize = self.directives.len();
        let mut stack: Vec<TestDirective> = Vec::new();
        loop
            invariant
                orig.len() == n0,
                stack@.len() + self.directives@.len() == orig.len(),
                self.directives@ == orig.take(self.directives@.len() as int),
                forall|k: int| 0 <= k < stack@.len() ==> stack@[k] == orig[orig.len() - 1 - k],
            ensures
                self.directives@.len() == 0,
                stack@.len() == orig.len(),
                forall|k: int| 0 <= k < stack@.len() ==> stack@[k] == orig[orig.len() - 1 - k],
            decreases self.directives@.len(),
        {
            let ghost dlen = self.directives@.len() as int;
            match self.directives.pop() {
                Some(d) => {
                    proof {
                        assert(orig.take(dlen)[dlen - 1] == orig[dlen - 1]);
                        assert(orig.take(dlen).take(dlen - 1) =~= orig.take(dlen - 1));
                    }
                    stack.push(d);
                },
                None => {
                    break;
                },
            }
        }
        let ghost n = orig.len() as int;
        let mut j: usize = 0;
        proof {
            assert(self.directives@.len() == 0);
        }
        while stack.len() > 0
            invariant
                orig.len() == n0,
                j == orig.len() - stack@.len(),
                0 <= j <= orig.len(),
                forall|k: int| 0 <= k < stack@.len() ==> stack@[k] == orig[orig.len() - 1 - k],
                self.directives@.len() == j as nat,
                forall|k: int| 0 <= k < j ==> #[trigger] self.directives@[k]@ == subst_directive(
                    orig[k]@,
                    vars.vars.deep_view(),
                ),
            decreases stack@.len(),
        {
            let d = stack.pop().unwrap();
            proof {
                assert(d == orig[j as int]);
            }
            let new_layers = match d.layers {
                Some(PossiblyImage::Explicit(ls)) => Some(
                    PossiblyImage::Explicit(subst_layers(&ls, vars)),
                ),
                Some(PossiblyImage::Image) => Some(PossiblyImage::Image),
                None => None,
            };
            let new_added = subst_layers(&d.added_layers, vars);
            let nd = TestDirective { layers: new_layers, added_layers: new_added, ..d };
            proof {
                assert(nd@ =~~= subst_directive(orig[j as int]@, vars.vars.deep_view()));
            }
            self.directives.push(nd);
            j = j + 1;
        }
        proof {
            let f = |d: DirectiveV| subst_directive(d, vars.vars.deep_view());
            assert(self.directives@.len() == orig.len());
            assert forall|k: int| 0 <= k < orig.len() implies self@[k] == old(self)@.map_values(
                f,
            )[k] by {
                assert(self@[k] == self.directives@[k]@);
                assert(old(self)@[k] == orig[k]@);
            }
            assert(self@ =~= old(self)@.map_values(f));
        }
        Ok(())
    }
}

} // verus!
