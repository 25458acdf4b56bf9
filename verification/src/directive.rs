//! Reading the directive configuration file.
//!
//! The file holds an array of `[[directives]]` sections; every other
//! top-level item is an unknown field and a hard error. Each directive key
//! maps onto one field of [`TestDirective`]; an unknown key is a hard error
//! too.
use vstd::prelude::*;

use crate::metadata::{AllMetadata, DeviceSet, EnvVar, GroupId, JobDevice, JobMount, JobNetwork,
    Layer, PossiblyImage, PrefixOptions, SymlinkSpec, TestDirective, Timeout, UserId};
use crate::pattern_parse::{parse_pattern, wf_pattern};
use crate::text::{lex_less, str_is};
use crate::toml_text::{parse_toml, TomlDoc, TomlKeyVal, TomlValue};

verus! {

/// Why a configuration text was rejected.
pub enum ConfigError {
    /// The text is not a well-formed document.
    Toml { pos: usize },
    /// A field that the format does not have.
    UnknownField { field: String, expected: &'static str },
    /// A field whose value has the wrong shape.
    BadValue { field: &'static str },
    /// A filter pattern that does not parse.
    BadFilter { pos: usize },
}

impl ConfigError {
    /// A human-readable rendering of the error.
    pub fn message(&self) -> (r: String) {
        match self {
            ConfigError::Toml { .. } => String::from_str("invalid configuration text"),
            ConfigError::UnknownField { field, expected } => {
                let mut out = String::from_str("unknown field `");
                out.append(field.as_str());
                out.append("`, expected `");
                out.append(expected);
                out.append("`");
                out
            },
            ConfigError::BadValue { field } => {
                let mut out = String::from_str("invalid value for `");
                out.append(field);
                out.append("`");
                out
            },
            ConfigError::BadFilter { .. } => String::from_str("invalid filter pattern"),
        }
    }
}

/// A directive's filter, when set, has compiling regex and glob arguments.
pub open spec fn directive_filter_wf(d: TestDirective) -> bool {
    match d.filter {
        Some(p) => wf_pattern(p),
        None => true,
    }
}

/// A directive with nothing set.
pub fn empty_directive() -> (r: TestDirective)
    ensures
        r.filter is None,
{
    TestDirective {
        filter: None,
        image: None,
        include_shared_libraries: None,
        network: None,
        enable_writable_file_system: None,
        user: None,
        group: None,
        timeout: None,
        layers: None,
        added_layers: Vec::new(),
        mounts: None,
        added_mounts: Vec::new(),
        devices: None,
        added_devices: DeviceSet::empty(),
        environment: None,
        added_environment: Vec::new(),
        working_directory: None,
    }
}

fn expect_str(v: TomlValue, field: &'static str) -> (r: Result<String, ConfigError>) {
    match v {
        TomlValue::Str(s) => Ok(s),
        _ => Err(ConfigError::BadValue { field }),
    }
}

fn expect_bool(v: &TomlValue, field: &'static str) -> (r: Result<bool, ConfigError>) {
    match v {
        TomlValue::Bool(b) => Ok(*b),
        _ => Err(ConfigError::BadValue { field }),
    }
}

fn expect_u32(v: &TomlValue, field: &'static str) -> (r: Result<u32, ConfigError>) {
    match v {
        TomlValue::Int(n) => {
            if *n <= u32::MAX as u64 {
                Ok(*n as u32)
            } else {
                Err(ConfigError::BadValue { field })
            }
        },
        _ => Err(ConfigError::BadValue { field }),
    }
}

/// Environment entries ordered by key, as the effective metadata keeps
/// them. Later duplicates override earlier ones.
fn env_from_pairs(pairs: Vec<(String, TomlValue)>, field: &'static str) -> (r: Result<
    Vec<EnvVar>,
    ConfigError,
>)
    decreases pairs@.len(),
{
    let mut vars: Vec<EnvVar> = Vec::new();
    let mut input = pairs;
    loop
        decreases input@.len(),
    {
        let ghost before = input@.len();
        match input.pop() {
            Some((k, v)) => {
                let value = expect_str(v, field)?;
                // Insert sorted by key; an existing entry for the key wins,
                // because it came later in the file.
                let kc = crate::text::chars_of(k.as_str());
                let mut i: usize = 0;
                let mut dup = false;
                while i < vars.len()
                    invariant
                        i <= vars@.len(),
                    decreases vars@.len() - i,
                {
                    let ic = crate::text::chars_of(vars[i].key.as_str());
                    if crate::text::chars_eq(&ic, &kc) {
                        dup = true;
                        break ;
                    }
                    if lex_less(&kc, &ic) {
                        break ;
                    }
                    i = i + 1;
                }
                if !dup {
                    if i >= vars.len() {
                        vars.push(EnvVar { key: k, value });
                    } else {
                        vars.insert(i, EnvVar { key: k, value });
                    }
                }
            },
            None => {
                return Ok(vars);
            },
        }
    }
}

fn layer_from_value(v: TomlValue, field: &'static str) -> (r: Result<Layer, ConfigError>) {
    let pairs = match v {
        TomlValue::Table(pairs) => pairs,
        _ => {
            return Err(ConfigError::BadValue { field });
        },
    };
    let mut tar: Option<String> = None;
    let mut glob: Option<String> = None;
    let mut paths: Option<Vec<String>> = None;
    let mut stubs: Option<Vec<String>> = None;
    let mut symlinks: Option<Vec<SymlinkSpec>> = None;
    let mut opts = PrefixOptions::default();
    let mut input = pairs;
    loop
        decreases input@.len(),
    {
        match input.pop() {
            Some((k, v)) => {
                if str_is(&k, "tar") {
                    tar = Some(expect_str(v, field)?);
                } else if str_is(&k, "glob") {
                    glob = Some(expect_str(v, field)?);
                } else if str_is(&k, "paths") {
                    paths = Some(string_array(v, field)?);
                } else if str_is(&k, "stubs") {
                    stubs = Some(string_array(v, field)?);
                } else if str_is(&k, "symlinks") {
                    symlinks = Some(symlink_array(v, field)?);
                } else if str_is(&k, "canonicalize") {
                    opts.canonicalize = expect_bool(&v, field)?;
                } else if str_is(&k, "strip_prefix") {
                    opts.strip_prefix = Some(expect_str(v, field)?);
                } else if str_is(&k, "prepend_prefix") {
                    opts.prepend_prefix = Some(expect_str(v, field)?);
                } else {
                    return Err(ConfigError::BadValue { field });
                }
            },
            None => {
                break ;
            },
        }
    }
    if let Some(path) = tar {
        Ok(Layer::Tar { path })
    } else if let Some(g) = glob {
        Ok(Layer::Glob { glob: g, prefix_options: opts })
    } else if let Some(p) = paths {
        Ok(Layer::Paths { paths: p, prefix_options: opts })
    } else if let Some(s) = stubs {
        Ok(Layer::Stubs { stubs: s })
    } else if let Some(s) = symlinks {
        Ok(Layer::Symlinks { symlinks: s })
    } else {
        Err(ConfigError::BadValue { field })
    }
}

fn string_array(v: TomlValue, field: &'static str) -> (r: Result<Vec<String>, ConfigError>) {
    let items = match v {
        TomlValue::Array(items) => items,
        _ => {
            return Err(ConfigError::BadValue { field });
        },
    };
    let mut out: Vec<String> = Vec::new();
    let mut input = items;
    let mut rev: Vec<String> = Vec::new();
    loop
        decreases input@.len(),
    {
        match input.pop() {
            Some(item) => {
                rev.push(expect_str(item, field)?);
            },
            None => {
                break ;
            },
        }
    }
    loop
        decreases rev@.len(),
    {
        match rev.pop() {
            Some(s) => {
                out.push(s);
            },
            None => {
                return Ok(out);
            },
        }
    }
}

fn symlink_array(v: TomlValue, field: &'static str) -> (r: Result<Vec<SymlinkSpec>, ConfigError>) {
    let items = match v {
        TomlValue::Array(items) => items,
        _ => {
            return Err(ConfigError::BadValue { field });
        },
    };
    let mut rev: Vec<SymlinkSpec> = Vec::new();
    let mut input = items;
    loop
        decreases input@.len(),
    {
        let item = match input.pop() {
            Some(item) => item,
            None => {
                break ;
            },
        };
        let pairs = match item {
            TomlValue::Table(pairs) => pairs,
            _ => {
                return Err(ConfigError::BadValue { field });
            },
        };
        let mut link: Option<String> = None;
        let mut target: Option<String> = None;
        let mut pin = pairs;
        loop
            decreases pin@.len(),
        {
            match pin.pop() {
                Some((k, v)) => {
                    if str_is(&k, "link") {
                        link = Some(expect_str(v, field)?);
                    } else if str_is(&k, "target") {
                        target = Some(expect_str(v, field)?);
                    } else {
                        return Err(ConfigError::BadValue { field });
                    }
                },
                None => {
                    break ;
                },
            }
        }
        match (link, target) {
            (Some(link), Some(target)) => {
                rev.push(SymlinkSpec { link, target });
            },
            _ => {
                return Err(ConfigError::BadValue { field });
            },
        }
    }
    let mut out: Vec<SymlinkSpec> = Vec::new();
    loop
        decreases rev@.len(),
    {
        match rev.pop() {
            Some(s) => {
                out.push(s);
            },
            None => {
                return Ok(out);
            },
        }
    }
}

fn layer_array(v: TomlValue, field: &'static str) -> (r: Result<Vec<Layer>, ConfigError>) {
    let items = match v {
        TomlValue::Array(items) => items,
        _ => {
            return Err(ConfigError::BadValue { field });
        },
    };
    let mut rev: Vec<Layer> = Vec::new();
    let mut input = items;
    loop
        decreases input@.len(),
    {
        match input.pop() {
            Some(item) => {
                rev.push(layer_from_value(item, field)?);
            },
            None => {
                break ;
            },
        }
    }
    let mut out: Vec<Layer> = Vec::new();
    loop
        decreases rev@.len(),
    {
        match rev.pop() {
            Some(s) => {
                out.push(s);
            },
            None => {
                return Ok(out);
            },
        }
    }
}

fn mount_array(v: TomlValue, field: &'static str) -> (r: Result<Vec<JobMount>, ConfigError>) {
    let items = match v {
        TomlValue::Array(items) => items,
        _ => {
            return Err(ConfigError::BadValue { field });
        },
    };
    let mut rev: Vec<JobMount> = Vec::new();
    let mut input = items;
    loop
        decreases input@.len(),
    {
        let item = match input.pop() {
            Some(item) => item,
            None => {
                break ;
            },
        };
        let pairs = match item {
            TomlValue::Table(pairs) => pairs,
            _ => {
                return Err(ConfigError::BadValue { field });
            },
        };
        let mut fs_type: Option<String> = None;
        let mut mount_point: Option<String> = None;
        let mut pin = pairs;
        loop
            decreases pin@.len(),
        {
            match pin.pop() {
                Some((k, v)) => {
                    if str_is(&k, "fs_type") {
                        fs_type = Some(expect_str(v, field)?);
                    } else if str_is(&k, "mount_point") {
                        mount_point = Some(expect_str(v, field)?);
                    } else {
                        return Err(ConfigError::BadValue { field });
                    }
                },
                None => {
                    break ;
                },
            }
        }
        match (fs_type, mount_point) {
            (Some(fs), Some(mount_point)) => {
                if str_is(&fs, "proc") {
                    rev.push(JobMount::Proc { mount_point });
                } else if str_is(&fs, "tmp") {
                    rev.push(JobMount::Tmp { mount_point });
                } else if str_is(&fs, "sys") {
                    rev.push(JobMount::Sys { mount_point });
                } else {
                    return Err(ConfigError::BadValue { field });
                }
            },
            _ => {
                return Err(ConfigError::BadValue { field });
            },
        }
    }
    let mut out: Vec<JobMount> = Vec::new();
    loop
        decreases rev@.len(),
    {
        match rev.pop() {
            Some(s) => {
                out.push(s);
            },
            None => {
                return Ok(out);
            },
        }
    }
}

fn device_set(v: TomlValue, field: &'static str) -> (r: Result<DeviceSet, ConfigError>) {
    let items = match v {
        TomlValue::Array(items) => items,
        _ => {
            return Err(ConfigError::BadValue { field });
        },
    };
    let mut set = DeviceSet::empty();
    let mut input = items;
    loop
        decreases input@.len(),
    {
        let item = match input.pop() {
            Some(item) => item,
            None => {
                return Ok(set);
            },
        };
        let name = expect_str(item, field)?;
        if str_is(&name, "full") {
            set = set.with(JobDevice::Full);
        } else if str_is(&name, "null") {
            set = set.with(JobDevice::Null);
        } else if str_is(&name, "random") {
            set = set.with(JobDevice::Random);
        } else if str_is(&name, "tty") {
            set = set.with(JobDevice::Tty);
        } else if str_is(&name, "urandom") {
            set = set.with(JobDevice::Urandom);
        } else if str_is(&name, "zero") {
            set = set.with(JobDevice::Zero);
        } else {
            return Err(ConfigError::BadValue { field });
        }
    }
}

fn network_value(v: TomlValue) -> (r: Result<JobNetwork, ConfigError>) {
    let s = expect_str(v, "network")?;
    if str_is(&s, "disabled") {
        Ok(JobNetwork::Disabled)
    } else if str_is(&s, "loopback") {
        Ok(JobNetwork::Loopback)
    } else if str_is(&s, "local") {
        Ok(JobNetwork::Local)
    } else {
        Err(ConfigError::BadValue { field: "network" })
    }
}

/// Apply one `key = value` entry to a directive being built.
fn apply_entry(d: &mut TestDirective, kv: TomlKeyVal) -> (r: Result<(), ConfigError>)
    ensures
        r is Ok ==> final(d).filter == old(d).filter || (final(d).filter matches Some(p)
            && wf_pattern(p)),
{
    let TomlKeyVal { path, value } = kv;
    if path.len() == 0 {
        return Err(ConfigError::BadValue { field: "directive" });
    }
    let key = &path[0];
    if str_is(key, "filter") {
        let s = expect_str(value, "filter")?;
        match parse_pattern(s.as_str()) {
            Ok(p) => {
                d.filter = Some(p);
            },
            Err(e) => {
                return Err(ConfigError::BadFilter { pos: e.pos });
            },
        }
    } else if str_is(key, "image") {
        if path.len() == 1 {
            d.image = Some(expect_str(value, "image")?);
        } else if str_is(&path[1], "name") {
            d.image = Some(expect_str(value, "image.name")?);
        } else if str_is(&path[1], "use") {
            let uses = string_array(value, "image.use")?;
            let mut input = uses;
            loop
                invariant
                    d.filter == old(d).filter,
                decreases input@.len(),
            {
                let u = match input.pop() {
                    Some(u) => u,
                    None => {
                        break ;
                    },
                };
                if str_is(&u, "layers") {
                    d.layers = Some(PossiblyImage::Image);
                } else if str_is(&u, "environment") {
                    d.environment = Some(PossiblyImage::Image);
                } else if str_is(&u, "working_directory") {
                    d.working_directory = Some(PossiblyImage::Image);
                } else {
                    return Err(ConfigError::BadValue { field: "image.use" });
                }
            }
        } else {
            return Err(ConfigError::BadValue { field: "image" });
        }
    } else if str_is(key, "include_shared_libraries") {
        d.include_shared_libraries = Some(expect_bool(&value, "include_shared_libraries")?);
    } else if str_is(key, "network") {
        d.network = Some(network_value(value)?);
    } else if str_is(key, "enable_writable_file_system") {
        d.enable_writable_file_system = Some(expect_bool(&value, "enable_writable_file_system")?);
    } else if str_is(key, "user") {
        d.user = Some(UserId(expect_u32(&value, "user")?));
    } else if str_is(key, "group") {
        d.group = Some(GroupId(expect_u32(&value, "group")?));
    } else if str_is(key, "timeout") {
        d.timeout = Some(Timeout::new(expect_u32(&value, "timeout")?));
    } else if str_is(key, "working_directory") {
        d.working_directory = Some(
            PossiblyImage::Explicit(expect_str(value, "working_directory")?),
        );
    } else if str_is(key, "layers") {
        d.layers = Some(PossiblyImage::Explicit(layer_array(value, "layers")?));
    } else if str_is(key, "added_layers") {
        d.added_layers = layer_array(value, "added_layers")?;
    } else if str_is(key, "mounts") {
        d.mounts = Some(mount_array(value, "mounts")?);
    } else if str_is(key, "added_mounts") {
        d.added_mounts = mount_array(value, "added_mounts")?;
    } else if str_is(key, "devices") {
        d.devices = Some(device_set(value, "devices")?);
    } else if str_is(key, "added_devices") {
        d.added_devices = device_set(value, "added_devices")?;
    } else if str_is(key, "environment") {
        match value {
            TomlValue::Table(pairs) => {
                d.environment = Some(
                    PossiblyImage::Explicit(env_from_pairs(pairs, "environment")?),
                );
            },
            _ => {
                return Err(ConfigError::BadValue { field: "environment" });
            },
        }
    } else if str_is(key, "added_environment") {
        match value {
            TomlValue::Table(pairs) => {
                d.added_environment = env_from_pairs(pairs, "added_environment")?;
            },
            _ => {
                return Err(ConfigError::BadValue { field: "added_environment" });
            },
        }
    } else {
        return Err(
            ConfigError::UnknownField {
                field: key.clone(),
                expected: "a directive field",
            },
        );
    }
    Ok(())
}

/// Whether a section is a directive section: an array section headed
/// `[[directives]]`.
pub open spec fn section_is_directive(sec: crate::toml_text::TomlSection) -> bool {
    sec.path@.len() == 1 && sec.is_array && sec.path@[0]@ == "directives"@
}

impl AllMetadata {
    /// Interpret a parsed document as a configuration. Any entry outside a
    /// `[[directives]]` section is an unknown field and a hard error, named
    /// in the error; on success there is exactly one directive per section,
    /// in file order, and every parsed filter is well formed.
    pub fn from_toml_doc(doc: TomlDoc) -> (r: Result<AllMetadata, ConfigError>)
        ensures
            doc.root@.len() > 0 ==> r is Err,
            doc.root@.len() > 0 && doc.root@[0].path@.len() > 0 ==> (r matches Err(
                ConfigError::UnknownField { field, expected },
            ) && field@ == doc.root@[0].path@[0]@ && expected@ == "directives"@),
            r matches Ok(am) ==> am.directives@.len() == doc.sections@.len(),
            r matches Ok(am) ==> forall|i: int|
                0 <= i < doc.sections@.len() ==> section_is_directive(
                    #[trigger] doc.sections@[i],
                ),
            r matches Ok(am) ==> forall|i: int|
                0 <= i < am.directives@.len() ==> #[trigger] directive_filter_wf(
                    am.directives@[i],
                ),
    {
        if doc.root.len() > 0 {
            let first = &doc.root[0];
            if first.path.len() > 0 {
                return Err(
                    ConfigError::UnknownField {
                        field: first.path[0].clone(),
                        expected: "directives",
                    },
                );
            }
            return Err(ConfigError::BadValue { field: "directives" });
        }
        let ghost secs = doc.sections@;
        let n0 = doc.sections.len();
        let mut directives: Vec<TestDirective> = Vec::new();
        let mut rev: Vec<crate::toml_text::TomlSection> = Vec::new();
        let mut sections = doc.sections;
        loop
            invariant
                doc.root@.len() == 0,
                secs.len() == n0,
                rev@.len() + sections@.len() == secs.len(),
                sections@ == secs.take(sections@.len() as int),
                forall|k: int| 0 <= k < rev@.len() ==> rev@[k] == secs[secs.len() - 1 - k],
            ensures
                sections@.len() == 0,
                rev@.len() == secs.len(),
                forall|k: int| 0 <= k < rev@.len() ==> rev@[k] == secs[secs.len() - 1 - k],
            decreases sections@.len(),
        {
            let ghost dlen = sections@.len() as int;
            match sections.pop() {
                Some(s) => {
                    proof {
                        assert(secs.take(dlen)[dlen - 1] == secs[dlen - 1]);
                        assert(secs.take(dlen).take(dlen - 1) =~= secs.take(dlen - 1));
                    }
                    rev.push(s);
                },
                None => {
                    break ;
                },
            }
        }
        let mut j: usize = 0;
        while rev.len() > 0
            invariant
                doc.root@.len() == 0,
                secs.len() == n0,
                j == secs.len() - rev@.len(),
                0 <= j <= secs.len(),
                forall|k: int| 0 <= k < rev@.len() ==> rev@[k] == secs[secs.len() - 1 - k],
                directives@.len() == j as nat,
                forall|i: int| 0 <= i < j ==> section_is_directive(#[trigger] secs[i]),
                forall|i: int|
                    0 <= i < directives@.len() ==> #[trigger] directive_filter_wf(
                        directives@[i],
                    ),
            decreases rev@.len(),
        {
            let sec = rev.pop().unwrap();
            proof {
                assert(sec == secs[j as int]);
            }
            if !(sec.path.len() == 1 && sec.is_array) {
                if sec.path.len() > 0 {
                    return Err(
                        ConfigError::UnknownField {
                            field: sec.path[0].clone(),
                            expected: "directives",
                        },
                    );
                }
                return Err(ConfigError::BadValue { field: "directives" });
            }
            if !crate::text::str_is(&sec.path[0], "directives") {
                return Err(
                    ConfigError::UnknownField {
                        field: sec.path[0].clone(),
                        expected: "directives",
                    },
                );
            }
            let mut d = empty_directive();
            let mut erev: Vec<TomlKeyVal> = Vec::new();
            let mut entries = sec.entries;
            loop
                invariant
                    doc.root@.len() == 0,
                    directive_filter_wf(d),
                decreases entries@.len(),
            {
                match entries.pop() {
                    Some(e) => {
                        erev.push(e);
                    },
                    None => {
                        break ;
                    },
                }
            }
            loop
                invariant
                    doc.root@.len() == 0,
                    directive_filter_wf(d),
                decreases erev@.len(),
            {
                match erev.pop() {
                    Some(e) => {
                        match apply_entry(&mut d, e) {
                            Ok(()) => {},
                            Err(err) => {
                                return Err(err);
                            },
                        }
                    },
                    None => {
                        break ;
                    },
                }
            }
            directives.push(d);
            j = j + 1;
        }
        Ok(AllMetadata { directives })
    }

    /// Read a whole configuration from text: the text is parsed into a
    /// document and the document is interpreted by [`from_toml_doc`],
    /// which carries the shape, count and unknown-field contract.
    pub fn from_str(contents: &str) -> (r: Result<AllMetadata, ConfigError>)
        ensures
            r matches Ok(am) ==> forall|i: int|
                0 <= i < am.directives@.len() ==> #[trigger] directive_filter_wf(
                    am.directives@[i],
                ),
    {
        let doc = match parse_toml(contents) {
            Ok(d) => d,
            Err(e) => {
                return Err(ConfigError::Toml { pos: e.pos });
            },
        };
        AllMetadata::from_toml_doc(doc)
    }
}

} // verus!
