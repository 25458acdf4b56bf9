use maelstrom_core::metadata::{AllMetadata, DeviceSet, EnvVar, EnvironmentSpec, GroupId,
    ImageSpec, JobDevice, JobMount, JobNetwork, Layer, TemplateVars, TestMetadata, Timeout,
    UserId};
use maelstrom_core::pattern::{Artifact, Case, Context};

fn test_ctx(package: &str, test: &str) -> Context {
    Context {
        package: package.into(),
        artifact: Some(Artifact { name: package.into() }),
        case: Some(Case { name: test.into() }),
    }
}

fn from_str(s: &str) -> AllMetadata {
    AllMetadata::from_str(s).ok().unwrap()
}

fn tar_layer(path: &str) -> Layer {
    Layer::Tar { path: path.into() }
}

fn env(vars: &[(&str, &str)], extend: bool) -> EnvironmentSpec {
    EnvironmentSpec {
        vars: vars
            .iter()
            .map(|(k, v)| EnvVar { key: (*k).into(), value: (*v).into() })
            .collect(),
        extend,
    }
}

#[test]
fn default() {
    assert_eq!(
        AllMetadata { directives: vec![] }
            .get_metadata_for_test(&test_ctx("mod", "foo"))
            .unwrap(),
        TestMetadata::default(),
    );
}

#[test]
fn include_shared_libraries_defaults() {
    let all = from_str(
        r#"
        [[directives]]
        filter = "package.equals(package1)"
        layers = [{ tar = "layer1" }]

        [[directives]]
        filter = "package.equals(package1) && name.equals(test1)"
        layers = []
        "#,
    );
    assert!(all
        .get_metadata_for_test(&test_ctx("package1", "test1"))
        .unwrap()
        .include_shared_libraries());
    assert!(!all
        .get_metadata_for_test(&test_ctx("package1", "test2"))
        .unwrap()
        .include_shared_libraries());
    assert!(all
        .get_metadata_for_test(&test_ctx("package2", "test1"))
        .unwrap()
        .include_shared_libraries());
}

#[test]
fn include_shared_libraries() {
    let all = from_str(
        r#"
        [[directives]]
        include_shared_libraries = false

        [[directives]]
        filter = "package.equals(package1)"
        include_shared_libraries = true
        layers = [{ tar = "layer1" }]

        [[directives]]
        filter = "package.equals(package1) && name.equals(test1)"
        layers = []
        "#,
    );
    assert!(all
        .get_metadata_for_test(&test_ctx("package1", "test1"))
        .unwrap()
        .include_shared_libraries());
    assert!(all
        .get_metadata_for_test(&test_ctx("package1", "test2"))
        .unwrap()
        .include_shared_libraries());
    assert!(!all
        .get_metadata_for_test(&test_ctx("package2", "test1"))
        .unwrap()
        .include_shared_libraries());
}

#[test]
fn network() {
    let all = from_str(
        r#"
        [[directives]]
        filter = "package.equals(package1)"
        network = "disabled"

        [[directives]]
        filter = "package.equals(package1) && name.equals(test1)"
        network = "loopback"

        [[directives]]
        filter = "package.equals(package1) && name.equals(test2)"
        network = "local"
        "#,
    );
    assert_eq!(
        all.get_metadata_for_test(&test_ctx("package1", "test1")).unwrap().network,
        JobNetwork::Loopback,
    );
    assert_eq!(
        all.get_metadata_for_test(&test_ctx("package1", "test2")).unwrap().network,
        JobNetwork::Local,
    );
    assert_eq!(
        all.get_metadata_for_test(&test_ctx("package1", "test3")).unwrap().network,
        JobNetwork::Disabled,
    );
    assert_eq!(
        all.get_metadata_for_test(&test_ctx("package2", "test1")).unwrap().network,
        JobNetwork::Disabled,
    );
}

#[test]
fn enable_writable_file_system() {
    let all = from_str(
        r#"
        [[directives]]
        filter = "package.equals(package1)"
        enable_writable_file_system = true

        [[directives]]
        filter = "package.equals(package1) && name.equals(test1)"
        enable_writable_file_system = false
        "#,
    );
    assert!(
        !all.get_metadata_for_test(&test_ctx("package1", "test1"))
            .unwrap()
            .enable_writable_file_system
    );
    assert!(
        all.get_metadata_for_test(&test_ctx("package1", "test2"))
            .unwrap()
            .enable_writable_file_system
    );
    assert!(
        !all.get_metadata_for_test(&test_ctx("package2", "test1"))
            .unwrap()
            .enable_writable_file_system
    );
}

#[test]
fn working_directory() {
    let all = from_str(
        r#"
        [[directives]]
        include_shared_libraries = false

        [[directives]]
        filter = "package.equals(package1)"
        image.name = "rust"
        image.use = ["working_directory"]

        [[directives]]
        filter = "package.equals(package1) && name.equals(test1)"
        working_directory = "/bar"

        [[directives]]
        filter = "package.equals(package3)"
        image.name = "no-working-directory"
        image.use = ["working_directory"]
        "#,
    );
    assert_eq!(
        all.get_metadata_for_test(&test_ctx("package1", "test1"))
            .unwrap()
            .working_directory,
        Some("/bar".to_string())
    );
    assert_eq!(
        all.get_metadata_for_test(&test_ctx("package1", "test2")).unwrap().image,
        Some(ImageSpec {
            name: "rust".into(),
            tag: "latest".into(),
            use_environment: false,
            use_layers: false,
            use_working_directory: true,
        })
    );
    assert_eq!(
        all.get_metadata_for_test(&test_ctx("package1", "test2"))
            .unwrap()
            .working_directory,
        None,
    );
    assert_eq!(
        all.get_metadata_for_test(&test_ctx("package2", "test1"))
            .unwrap()
            .working_directory,
        Some("/".to_string())
    );
}

#[test]
fn user() {
    let all = from_str(
        r#"
        [[directives]]
        filter = "package.equals(package1)"
        user = 101

        [[directives]]
        filter = "package.equals(package1) && name.equals(test1)"
        user = 202
        "#,
    );
    assert_eq!(
        all.get_metadata_for_test(&test_ctx("package1", "test1")).unwrap().user,
        UserId(202)
    );
    assert_eq!(
        all.get_metadata_for_test(&test_ctx("package1", "test2")).unwrap().user,
        UserId(101)
    );
    assert_eq!(
        all.get_metadata_for_test(&test_ctx("package2", "test1")).unwrap().user,
        UserId(0)
    );
}

#[test]
fn group() {
    let all = from_str(
        r#"
        [[directives]]
        filter = "package.equals(package1)"
        group = 101

        [[directives]]
        filter = "package.equals(package1) && name.equals(test1)"
        group = 202
        "#,
    );
    assert_eq!(
        all.get_metadata_for_test(&test_ctx("package1", "test1")).unwrap().group,
        GroupId(202)
    );
    assert_eq!(
        all.get_metadata_for_test(&test_ctx("package1", "test2")).unwrap().group,
        GroupId(101)
    );
    assert_eq!(
        all.get_metadata_for_test(&test_ctx("package2", "test1")).unwrap().group,
        GroupId(0)
    );
}

#[test]
fn timeout() {
    let all = from_str(
        r#"
        [[directives]]
        filter = "package.equals(package1)"
        timeout = 100

        [[directives]]
        filter = "package.equals(package1) && name.equals(test1)"
        timeout = 0
        "#,
    );
    assert_eq!(
        all.get_metadata_for_test(&test_ctx("package1", "test1")).unwrap().timeout,
        None,
    );
    assert_eq!(
        all.get_metadata_for_test(&test_ctx("package1", "test2")).unwrap().timeout,
        Timeout::new(100),
    );
    assert_eq!(
        all.get_metadata_for_test(&test_ctx("package2", "test1")).unwrap().timeout,
        None,
    );
}

#[test]
fn layers() {
    let all = from_str(
        r#"
        [[directives]]
        layers = [{ tar = "layer1" }, { tar = "layer2" }]

        [[directives]]
        filter = "package.equals(package1)"
        image.name = "image2"
        image.use = [ "layers" ]

        [[directives]]
        filter = "package.equals(package1) && name.equals(test1)"
        image.name = "image1"
        image.use = [ "layers" ]

        [[directives]]
        filter = "package.equals(package1) && name.equals(test2)"
        layers = [{ tar = "layer3" }, { tar = "layer4" }]

        [[directives]]
        filter = "package.equals(package1) && name.equals(test3)"
        image.name = "image3"
        image.use = [ "layers" ]
        "#,
    );
    assert_eq!(
        all.get_metadata_for_test(&test_ctx("package1", "test1")).unwrap().layers,
        vec![]
    );
    assert_eq!(
        all.get_metadata_for_test(&test_ctx("package1", "test1")).unwrap().image,
        Some(ImageSpec {
            name: "image1".into(),
            tag: "latest".into(),
            use_environment: false,
            use_layers: true,
            use_working_directory: false,
        })
    );
    assert_eq!(
        all.get_metadata_for_test(&test_ctx("package1", "test2")).unwrap().layers,
        vec![tar_layer("layer3"), tar_layer("layer4")],
    );
    assert_eq!(
        all.get_metadata_for_test(&test_ctx("package1", "test2")).unwrap().image,
        Some(ImageSpec {
            name: "image2".into(),
            tag: "latest".into(),
            use_environment: false,
            use_layers: true,
            use_working_directory: false,
        })
    );
    assert_eq!(
        all.get_metadata_for_test(&test_ctx("package1", "test3")).unwrap().layers,
        vec![],
    );
    assert_eq!(
        all.get_metadata_for_test(&test_ctx("package1", "test3")).unwrap().image,
        Some(ImageSpec {
            name: "image3".into(),
            tag: "latest".into(),
            use_environment: false,
            use_layers: true,
            use_working_directory: false,
        })
    );
    assert_eq!(
        all.get_metadata_for_test(&test_ctx("package1", "test4")).unwrap().layers,
        vec![],
    );
    assert_eq!(
        all.get_metadata_for_test(&test_ctx("package1", "test4")).unwrap().image,
        Some(ImageSpec {
            name: "image2".into(),
            tag: "latest".into(),
            use_environment: false,
            use_layers: true,
            use_working_directory: false,
        })
    );
    assert_eq!(
        all.get_metadata_for_test(&test_ctx("package2", "test1")).unwrap().layers,
        vec![tar_layer("layer1"), tar_layer("layer2")],
    );
    assert_eq!(
        all.get_metadata_for_test(&test_ctx("package2", "test1")).unwrap().image,
        None,
    );
}

#[test]
fn added_layers() {
    let all = from_str(
        r#"
        [[directives]]
        added_layers = [{ tar = "added-layer1" }, { tar = "added-layer2" }]

        [[directives]]
        filter = "package.equals(package1)"
        layers = [{tar = "layer1" }, { tar = "layer2" }]
        added_layers = [{ tar = "added-layer3" }, { tar = "added-layer4" }]

        [[directives]]
        filter = "package.equals(package1) && name.equals(test1)"
        added_layers = [{tar = "added-layer5" }, { tar = "added-layer6" }]
        "#,
    );
    assert_eq!(
        all.get_metadata_for_test(&test_ctx("package1", "test1")).unwrap().layers,
        vec![
            tar_layer("layer1"),
            tar_layer("layer2"),
            tar_layer("added-layer3"),
            tar_layer("added-layer4"),
            tar_layer("added-layer5"),
            tar_layer("added-layer6"),
        ],
    );
    assert_eq!(
        all.get_metadata_for_test(&test_ctx("package1", "test2")).unwrap().layers,
        vec![
            tar_layer("layer1"),
            tar_layer("layer2"),
            tar_layer("added-layer3"),
            tar_layer("added-layer4")
        ],
    );
    assert_eq!(
        all.get_metadata_for_test(&test_ctx("package2", "test1")).unwrap().layers,
        vec![tar_layer("added-layer1"), tar_layer("added-layer2")],
    );
}

#[test]
fn environment() {
    let dir1_env = env(
        &[
            ("BAR", "bar"),
            ("BAZ", "$prev{FOO:-no-prev-foo}"),
            ("FOO", "$env{FOO}"),
        ],
        false,
    );
    let dir3_env = env(
        &[
            ("BAR", "$env{BAR}"),
            ("BAZ", "$prev{BAZ:-no-prev-baz}"),
            ("FOO", "$prev{FOO}"),
        ],
        false,
    );
    let all = from_str(
        r#"
        [[directives]]
        environment = { FOO = "$env{FOO}", BAR = "bar", BAZ = "$prev{FOO:-no-prev-foo}" }

        [[directives]]
        filter = "package.equals(package1)"
        image.name = "image1"
        image.use = ["environment"]

        [[directives]]
        filter = "package.equals(package1) && name.equals(test1)"
        environment = { FOO = "$prev{FOO}", BAR = "$env{BAR}", BAZ = "$prev{BAZ:-no-prev-baz}" }

        [[directives]]
        filter = "package.equals(package3)"
        image.name = "no-environment"
        image.use = ["environment"]

        [[directives]]
        filter = "package.equals(package4)"
        image.name = "bad-environment"
        image.use = ["environment"]
        "#,
    );
    assert_eq!(
        all.get_metadata_for_test(&test_ctx("package1", "test1")).unwrap().environment,
        vec![dir1_env.clone(), dir3_env.clone()]
    );
    assert!(
        all.get_metadata_for_test(&test_ctx("package1", "test1"))
            .unwrap()
            .image
            .unwrap()
            .use_environment,
    );
    assert_eq!(
        all.get_metadata_for_test(&test_ctx("package1", "test2")).unwrap().environment,
        vec![dir1_env.clone()]
    );
    assert!(
        all.get_metadata_for_test(&test_ctx("package1", "test2"))
            .unwrap()
            .image
            .unwrap()
            .use_environment,
    );
    assert_eq!(
        all.get_metadata_for_test(&test_ctx("package2", "test1")).unwrap().environment,
        vec![dir1_env.clone()]
    );
}

#[test]
fn added_environment() {
    let dir1_env = env(&[("BAR", "bar"), ("FOO", "foo")], false);
    let dir1_added_env = env(
        &[("BAZ", "$prev{BAZ:-no-prev-baz}"), ("FOO", "prev-$prev{FOO}")],
        true,
    );
    let dir2_added_env = env(
        &[("BAZ", "$prev{BAZ:-no-prev-baz}"), ("FOO", "$prev{FOO}")],
        true,
    );
    let dir3_added_env = env(&[("BAR", "bar"), ("FOO", "prev-$prev{FOO}")], true);
    let dir4_env = env(&[("FOO", "prev-$prev{FOO}")], false);
    let dir4_added_env = env(&[("BAR", "$env{BAR}"), ("FOO", "prev-$prev{FOO}")], true);
    let all = from_str(
        r#"
        [[directives]]
        environment = { FOO = "foo", BAR = "bar" }
        added_environment = { FOO = "prev-$prev{FOO}", BAZ = "$prev{BAZ:-no-prev-baz}" }

        [[directives]]
        filter = "package.equals(package1)"
        image.name = "image1"
        image.use = ["environment"]
        added_environment = { FOO = "$prev{FOO}", BAZ = "$prev{BAZ:-no-prev-baz}" }

        [[directives]]
        filter = "package.equals(package1) && name.equals(test1)"
        added_environment = { FOO = "prev-$prev{FOO}", BAR = "bar" }

        [[directives]]
        filter = "package.equals(package1) && name.equals(test2)"
        environment = { FOO = "prev-$prev{FOO}" }
        added_environment = { FOO = "prev-$prev{FOO}", BAR = "$env{BAR}" }
        "#,
    );
    assert_eq!(
        all.get_metadata_for_test(&test_ctx("package1", "test1")).unwrap().environment,
        vec![
            dir1_env.clone(),
            dir1_added_env.clone(),
            dir2_added_env.clone(),
            dir3_added_env.clone()
        ]
    );
    assert!(
        all.get_metadata_for_test(&test_ctx("package1", "test1"))
            .unwrap()
            .image
            .unwrap()
            .use_environment,
    );
    assert_eq!(
        all.get_metadata_for_test(&test_ctx("package1", "test2")).unwrap().environment,
        vec![
            dir1_env.clone(),
            dir1_added_env.clone(),
            dir2_added_env.clone(),
            dir4_env.clone(),
            dir4_added_env.clone()
        ]
    );
    assert!(
        all.get_metadata_for_test(&test_ctx("package1", "test2"))
            .unwrap()
            .image
            .unwrap()
            .use_environment,
    );
    assert_eq!(
        all.get_metadata_for_test(&test_ctx("package1", "test3")).unwrap().environment,
        vec![dir1_env.clone(), dir1_added_env.clone(), dir2_added_env.clone(),]
    );
    assert!(
        all.get_metadata_for_test(&test_ctx("package1", "test3"))
            .unwrap()
            .image
            .unwrap()
            .use_environment,
    );
    assert_eq!(
        all.get_metadata_for_test(&test_ctx("package2", "test1")).unwrap().environment,
        vec![dir1_env.clone(), dir1_added_env.clone(),]
    );
}

#[test]
fn mounts() {
    let all = from_str(
        r#"
        [[directives]]
        filter = "package.equals(package1)"
        mounts = [ { fs_type = "proc", mount_point = "/proc" } ]

        [[directives]]
        filter = "package.equals(package1) && name.equals(test1)"
        mounts = [
            { fs_type = "tmp", mount_point = "/tmp" },
            { fs_type = "sys", mount_point = "/sys" },
        ]
        "#,
    );

    assert_eq!(
        all.get_metadata_for_test(&test_ctx("package1", "test1")).unwrap().mounts,
        vec![
            JobMount::Tmp { mount_point: "/tmp".into() },
            JobMount::Sys { mount_point: "/sys".into() },
        ],
    );
    assert_eq!(
        all.get_metadata_for_test(&test_ctx("package1", "test2")).unwrap().mounts,
        vec![JobMount::Proc { mount_point: "/proc".into() }],
    );
    assert_eq!(
        all.get_metadata_for_test(&test_ctx("package2", "test1")).unwrap().mounts,
        vec![],
    );
}

#[test]
fn added_mounts() {
    let all = from_str(
        r#"
        [[directives]]
        added_mounts = [ { fs_type = "tmp", mount_point = "/tmp" } ]

        [[directives]]
        filter = "package.equals(package1)"
        mounts = [
            { fs_type = "proc", mount_point = "/proc" },
        ]
        added_mounts = [
            { fs_type = "sys", mount_point = "/sys" },
        ]

        [[directives]]
        filter = "package.equals(package1) && name.equals(test1)"
        added_mounts = [
            { fs_type = "tmp", mount_point = "/tmp" },
        ]

        [[directives]]
        filter = "package.equals(package1) && name.equals(test2)"
        added_mounts = [
            { fs_type = "tmp", mount_point = "/tmp" },
            { fs_type = "proc", mount_point = "/proc" },
        ]

        [[directives]]
        filter = "package.equals(package1) && name.equals(test3)"
        mounts = []
        added_mounts = [
            { fs_type = "tmp", mount_point = "/tmp" },
        ]
        "#,
    );

    assert_eq!(
        all.get_metadata_for_test(&test_ctx("package1", "test1")).unwrap().mounts,
        vec![
            JobMount::Proc { mount_point: "/proc".into() },
            JobMount::Sys { mount_point: "/sys".into() },
            JobMount::Tmp { mount_point: "/tmp".into() },
        ],
    );
    assert_eq!(
        all.get_metadata_for_test(&test_ctx("package1", "test2")).unwrap().mounts,
        vec![
            JobMount::Proc { mount_point: "/proc".into() },
            JobMount::Sys { mount_point: "/sys".into() },
            JobMount::Tmp { mount_point: "/tmp".into() },
            JobMount::Proc { mount_point: "/proc".into() },
        ],
    );
    assert_eq!(
        all.get_metadata_for_test(&test_ctx("package1", "test3")).unwrap().mounts,
        vec![JobMount::Tmp { mount_point: "/tmp".into() }],
    );
    assert_eq!(
        all.get_metadata_for_test(&test_ctx("package2", "test1")).unwrap().mounts,
        vec![JobMount::Tmp { mount_point: "/tmp".into() }],
    );
}

#[test]
fn devices() {
    let all = from_str(
        r#"
        [[directives]]
        filter = "package.equals(package1)"
        devices = [ "null" ]

        [[directives]]
        filter = "package.equals(package1) && name.equals(test1)"
        devices = [ "zero", "tty" ]
        "#,
    );

    assert_eq!(
        all.get_metadata_for_test(&test_ctx("package1", "test1")).unwrap().devices,
        DeviceSet::empty().with(JobDevice::Zero).with(JobDevice::Tty),
    );
    assert_eq!(
        all.get_metadata_for_test(&test_ctx("package1", "test2")).unwrap().devices,
        DeviceSet::empty().with(JobDevice::Null),
    );
    assert_eq!(
        all.get_metadata_for_test(&test_ctx("package2", "test1")).unwrap().devices,
        DeviceSet::empty(),
    );
}

#[test]
fn added_devices() {
    let all = from_str(
        r#"
        [[directives]]
        added_devices = [ "tty" ]

        [[directives]]
        filter = "package.equals(package1)"
        devices = [ "zero", "null" ]
        added_devices = [ "full" ]

        [[directives]]
        filter = "package.equals(package1) && name.equals(test1)"
        added_devices = [ "random" ]

        [[directives]]
        filter = "package.equals(package1) && name.equals(test2)"
        added_devices = [ "urandom" ]

        [[directives]]
        filter = "package.equals(package1) && name.equals(test3)"
        devices = []
        added_devices = [ "zero" ]
        "#,
    );

    assert_eq!(
        all.get_metadata_for_test(&test_ctx("package1", "test1")).unwrap().devices,
        DeviceSet::empty()
            .with(JobDevice::Zero)
            .with(JobDevice::Null)
            .with(JobDevice::Full)
            .with(JobDevice::Random),
    );
    assert_eq!(
        all.get_metadata_for_test(&test_ctx("package1", "test2")).unwrap().devices,
        DeviceSet::empty()
            .with(JobDevice::Zero)
            .with(JobDevice::Null)
            .with(JobDevice::Full)
            .with(JobDevice::Urandom),
    );
    assert_eq!(
        all.get_metadata_for_test(&test_ctx("package1", "test3")).unwrap().devices,
        DeviceSet::empty().with(JobDevice::Zero),
    );
    assert_eq!(
        all.get_metadata_for_test(&test_ctx("package2", "test1")).unwrap().devices,
        DeviceSet::empty().with(JobDevice::Tty),
    );
}

#[test]
fn bad_field_in_all_metadata() {
    let err = AllMetadata::from_str(
        r#"
        [not_a_field]
        foo = "three"
        "#,
    )
    .err()
    .unwrap();
    let message = err.message();
    assert!(
        message.starts_with("unknown field `not_a_field`, expected `directives`"),
        "message: {message}"
    );
}

#[test]
fn directive_fold_override() {
    // Two directives: an unfiltered one setting user and group, and a
    // package-filtered one overriding the user.
    let all = from_str(
        r#"
        [[directives]]
        user = 101
        group = 101

        [[directives]]
        filter = "package.equals(pkg1)"
        user = 202
        "#,
    );
    let m1 = all.get_metadata_for_test(&test_ctx("pkg1", "t1")).unwrap();
    assert_eq!(m1.user, UserId(202));
    assert_eq!(m1.group, GroupId(101));
    let m2 = all.get_metadata_for_test(&test_ctx("pkg2", "t1")).unwrap();
    assert_eq!(m2.user, UserId(101));
    assert_eq!(m2.group, GroupId(101));
}

#[test]
fn image_inheritance_of_working_directory() {
    let all = from_str(
        r#"
        [[directives]]
        image.name = "img1"
        image.use = ["working_directory"]
        "#,
    );
    let m = all.get_metadata_for_test(&test_ctx("pkg", "t")).unwrap();
    assert_eq!(m.working_directory, None);
    assert_eq!(
        m.image,
        Some(ImageSpec {
            name: "img1".into(),
            tag: "latest".into(),
            use_environment: false,
            use_layers: false,
            use_working_directory: true,
        })
    );
}

#[test]
fn image_inheritance_without_image_is_an_error() {
    let all = from_str(
        r#"
        [[directives]]
        image.use = ["layers"]
        "#,
    );
    assert!(all.get_metadata_for_test(&test_ctx("pkg", "t")).is_err());
}

#[test]
fn all_metadata_default_matches_default_file() {
    // The same configuration, written as a directive file.
    let written = from_str(
        r#"
        [[directives]]
        include_shared_libraries = true
        network = "disabled"
        enable_writable_file_system = false
        working_directory = "/"
        user = 0
        group = 0
        layers = [
            { stubs = ["/{proc,sys,tmp}/", "/dev/{full,null,random,urandom,zero}"] },
        ]
        mounts = [
            { fs_type = "tmp", mount_point = "/tmp" },
            { fs_type = "proc", mount_point = "/proc" },
            { fs_type = "sys", mount_point = "/sys" },
        ]
        devices = ["full", "null", "random", "urandom", "zero"]
        "#,
    );
    let built_in = AllMetadata::default();
    let ctx = test_ctx("any-package", "any-test");
    assert_eq!(
        written.get_metadata_for_test(&ctx).unwrap(),
        built_in.get_metadata_for_test(&ctx).unwrap(),
    );
}

#[test]
fn image_names_may_carry_a_tag() {
    let all = from_str(
        r#"
        [[directives]]
        image.name = "img:v2"
        image.use = ["layers"]
        "#,
    );
    let m = all.get_metadata_for_test(&test_ctx("pkg", "t")).unwrap();
    assert_eq!(
        m.image,
        Some(ImageSpec {
            name: "img".into(),
            tag: "v2".into(),
            use_environment: false,
            use_layers: true,
            use_working_directory: false,
        })
    );
}

#[test]
fn template_vars_substitute_into_layer_paths() {
    let mut all = from_str(
        r#"
        [[directives]]
        layers = [{ tar = "<build-dir>/a.tar" }]
        added_layers = [{ stubs = ["<build-dir>/stub"] }]
        "#,
    );
    let vars = TemplateVars {
        vars: vec![EnvVar { key: "build-dir".into(), value: "/target/debug".into() }],
    };
    all.replace_template_vars(&vars).unwrap();
    let m = all.get_metadata_for_test(&test_ctx("pkg", "t")).unwrap();
    assert_eq!(
        m.layers,
        vec![
            Layer::Tar { path: "/target/debug/a.tar".into() },
            Layer::Stubs { stubs: vec!["/target/debug/stub".into()] },
        ]
    );
}
